//! In-memory stores: presence with TTL, ringing invites, sessions and
//! per-dog policies.
//!
//! The stores take `&mut self` to change; a server shares them behind one
//! lock.
use crate::bond::BondGraph;
use crate::policy::{whole_seconds, DogPolicy};
use crate::protocol::{
    DogId, ForceBand, Invite, InviteId, PresenceReport, PresenceView, SessionId, SessionRecord,
    SessionState, TerminalId, PRESENCE_TTL_MS,
};
use dashmap::DashMap;
use std::collections::HashMap;
use vstd::prelude::*;

verus! {

broadcast use vstd::std_specs::hash::group_hash_axioms;

/// What the presence store keeps per dog.
#[derive(Debug, Clone, Copy, PartialEq, Eq, Structural)]
pub struct PresenceEntry {
    pub terminal_id: TerminalId,
    pub present: bool,
    pub confidence_pct: u8,
    pub force_band: ForceBand,
    /// Time of the last report (ms since the epoch).
    pub last_seen: i64,
    pub seq: u64,
}

#[verifier::external_type_specification]
#[verifier::external_body]
#[verifier::reject_recursive_types(K)]
#[verifier::reject_recursive_types(V)]
#[verifier::reject_recursive_types(S)]
pub struct ExDashMap<K, V, S>(DashMap<K, V, S>);

/// The entries a presence map holds, by dog id.
pub uninterp spec fn presence_entries(m: DashMap<u128, PresenceEntry>) -> Map<u128, PresenceEntry>;

/// `DashMap::new`: an empty map.
#[verifier::external_body]
fn presence_map_new() -> (r: DashMap<u128, PresenceEntry>)
    ensures
        presence_entries(r).dom() == Set::<u128>::empty(),
{
    DashMap::new()
}

/// `DashMap::get`: a copy of the entry of `k`, if there is one.
#[verifier::external_body]
fn presence_map_get(m: &DashMap<u128, PresenceEntry>, k: u128) -> (r: Option<PresenceEntry>)
    ensures
        r == (if presence_entries(*m).contains_key(k) {
            Some(presence_entries(*m)[k])
        } else {
            None
        }),
{
    m.get(&k).map(|r| *r.value())
}

/// `DashMap::insert`: the entry of `k` becomes `v`.
#[verifier::external_body]
fn presence_map_insert(m: &mut DashMap<u128, PresenceEntry>, k: u128, v: PresenceEntry)
    ensures
        presence_entries(*final(m)) == presence_entries(*old(m)).insert(k, v),
{
    m.insert(k, v);
}

/// `DashMap::iter`: the keys, each once, in the map's own order.
#[verifier::external_body]
fn presence_map_keys(m: &DashMap<u128, PresenceEntry>) -> (r: Vec<u128>)
    ensures
        r@.to_set() == presence_entries(*m).dom(),
        r@.no_duplicates(),
{
    m.iter().map(|r| *r.key()).collect()
}

/// The entry a report makes.
pub open spec fn entry_of(report: PresenceReport) -> PresenceEntry {
    PresenceEntry {
        terminal_id: report.terminal_id,
        present: report.present,
        confidence_pct: report.confidence_pct,
        force_band: report.force_band,
        last_seen: report.ts,
        seq: report.seq,
    }
}

/// Milliseconds since `last_seen` at `now` (0 where `last_seen` is later).
pub open spec fn age_ms(now_ms: i64, last_seen: i64) -> int {
    if now_ms >= last_seen {
        now_ms - last_seen
    } else {
        0
    }
}

/// What the store shows of an entry at `now`: present only while the
/// report is at most `PRESENCE_TTL_MS` old; an absent dog shows zero
/// confidence and an empty mat.
pub open spec fn view_of(dog_id: DogId, e: PresenceEntry, now_ms: i64) -> PresenceView {
    let present = e.present && age_ms(now_ms, e.last_seen) <= PRESENCE_TTL_MS;
    PresenceView {
        dog_id,
        terminal_id: e.terminal_id,
        present,
        confidence_pct: if present {
            e.confidence_pct
        } else {
            0
        },
        force_band: if present {
            e.force_band
        } else {
            ForceBand::Empty
        },
        last_seen: e.last_seen,
        seq: e.seq,
    }
}

/// Live presence by dog, with TTL.
#[derive(Debug)]
pub struct PresenceStore {
    inner: DashMap<u128, PresenceEntry>,
}

impl PresenceStore {
    /// The stored entry of each dog.
    pub closed spec fn entries(&self) -> Map<u128, PresenceEntry> {
        presence_entries(self.inner)
    }

    /// Whether `d` shows present at `now`.
    pub open spec fn shows_present(&self, d: u128, now_ms: i64) -> bool {
        self.entries().contains_key(d) && view_of(DogId(d), self.entries()[d], now_ms).present
    }

    pub fn new() -> (r: Self)
        ensures
            r.entries() == Map::<u128, PresenceEntry>::empty(),
    {
        let r = PresenceStore { inner: presence_map_new() };
        assert(r.entries() =~= Map::<u128, PresenceEntry>::empty());
        r
    }

    /// Record a report; a report older (by sequence number) than the stored
    /// one is ignored.
    pub fn upsert(&mut self, report: PresenceReport)
        ensures
            final(self).entries() == (if old(self).entries().contains_key(report.dog_id.0)
                && report.seq < old(self).entries()[report.dog_id.0].seq {
                old(self).entries()
            } else {
                old(self).entries().insert(report.dog_id.0, entry_of(report))
            }),
    {
        if let Some(e) = presence_map_get(&self.inner, report.dog_id.0) {
            if report.seq < e.seq {
                return;
            }
        }
        presence_map_insert(
            &mut self.inner,
            report.dog_id.0,
            PresenceEntry {
                terminal_id: report.terminal_id,
                present: report.present,
                confidence_pct: report.confidence_pct,
                force_band: report.force_band,
                last_seen: report.ts,
                seq: report.seq,
            },
        );
    }

    pub fn get(&self, dog_id: DogId, now_ms: i64) -> (r: Option<PresenceView>)
        ensures
            r == (if self.entries().contains_key(dog_id.0) {
                Some(view_of(dog_id, self.entries()[dog_id.0], now_ms))
            } else {
                None
            }),
    {
        let e = match presence_map_get(&self.inner, dog_id.0) {
            Some(e) => e,
            None => {
                return None;
            },
        };
        let d: i128 = now_ms as i128 - e.last_seen as i128;
        let age: i128 = if d > 0 {
            d
        } else {
            0
        };
        let present = e.present && age <= PRESENCE_TTL_MS as i128;
        Some(
            PresenceView {
                dog_id,
                terminal_id: e.terminal_id,
                present,
                confidence_pct: if present {
                    e.confidence_pct
                } else {
                    0
                },
                force_band: if present {
                    e.force_band
                } else {
                    ForceBand::Empty
                },
                last_seen: e.last_seen,
                seq: e.seq,
            },
        )
    }

    /// Every dog present at `now`, each once, in no promised order.
    pub fn list_present(&self, now_ms: i64) -> (r: Vec<PresenceView>)
        ensures
            forall|i: int|
                0 <= i < r@.len() ==> self.shows_present(r@[i].dog_id.0, now_ms) && r@[i]
                    == view_of(r@[i].dog_id, self.entries()[r@[i].dog_id.0], now_ms),
            forall|d: u128|
                self.shows_present(d, now_ms) ==> exists|i: int|
                    0 <= i < r@.len() && r@[i].dog_id.0 == d,
            forall|i: int, j: int| 0 <= i < j < r@.len() ==> r@[i].dog_id != r@[j].dog_id,
    {
        let keys = presence_map_keys(&self.inner);
        let mut out: Vec<PresenceView> = Vec::new();
        let mut k: usize = 0;
        while k < keys.len()
            invariant
                k <= keys@.len(),
                keys@.to_set() == self.entries().dom(),
                keys@.no_duplicates(),
                forall|i: int|
                    0 <= i < out@.len() ==> self.shows_present(out@[i].dog_id.0, now_ms) && out@[i]
                        == view_of(out@[i].dog_id, self.entries()[out@[i].dog_id.0], now_ms),
                forall|i: int|
                    #![trigger out@[i]]
                    0 <= i < out@.len() ==> exists|j: int|
                        #![trigger keys@[j]]
                        0 <= j < k && keys@[j] == out@[i].dog_id.0,
                forall|j: int|
                    #![trigger keys@[j]]
                    0 <= j < k && self.shows_present(keys@[j], now_ms) ==> exists|i: int|
                        #![trigger out@[i]]
                        0 <= i < out@.len() && out@[i].dog_id.0 == keys@[j],
                forall|i: int, j: int|
                    0 <= i < j < out@.len() ==> out@[i].dog_id != out@[j].dog_id,
            decreases keys@.len() - k,
        {
            let d = keys[k];
            proof {
                assert(keys@.to_set().contains(keys@[k as int]));
            }
            match self.get(DogId(d), now_ms) {
                Some(v) => {
                    if v.present {
                        let ghost prev = out@;
                        proof {
                            assert forall|i: int| 0 <= i < prev.len() implies prev[i].dog_id.0
                                != d by {
                                let j = choose|j: int| 0 <= j < k && keys@[j] == prev[i].dog_id.0;
                                assert(keys@[j] != keys@[k as int]);
                            }
                        }
                        out.push(v);
                        proof {
                            assert forall|i: int|
                                #![trigger out@[i]]
                                0 <= i < out@.len() implies exists|j: int|
                                #![trigger keys@[j]]
                                0 <= j < k + 1 && keys@[j] == out@[i].dog_id.0 by {
                                if i < prev.len() {
                                    assert(out@[i] == prev[i]);
                                    let j = choose|j: int|
                                        0 <= j < k && keys@[j] == prev[i].dog_id.0;
                                } else {
                                    assert(keys@[k as int] == out@[i].dog_id.0);
                                }
                            }
                            assert forall|j: int|
                                #![trigger keys@[j]]
                                0 <= j < k + 1 && self.shows_present(
                                    keys@[j],
                                    now_ms,
                                ) implies exists|i: int|
                                #![trigger out@[i]]
                                0 <= i < out@.len() && out@[i].dog_id.0 == keys@[j] by {
                                if j < k {
                                    let i = choose|i: int|
                                        0 <= i < prev.len() && prev[i].dog_id.0 == keys@[j];
                                    assert(out@[i] == prev[i]);
                                } else {
                                    assert(out@[prev.len() as int].dog_id.0 == keys@[j]);
                                }
                            }
                        }
                    }
                },
                None => {},
            }
            k = k + 1;
        }
        proof {
            assert forall|d: u128| self.shows_present(d, now_ms) implies exists|i: int|
                0 <= i < out@.len() && out@[i].dog_id.0 == d by {
                assert(keys@.to_set().contains(d));
                let j = choose|j: int| 0 <= j < keys@.len() && keys@[j] == d;
            }
        }
        out
    }

    /// The dogs present at `now`, each once, in no promised order.
    pub fn present_dog_ids(&self, now_ms: i64) -> (r: Vec<DogId>)
        ensures
            forall|i: int| 0 <= i < r@.len() ==> self.shows_present(r@[i].0, now_ms),
            forall|d: u128|
                self.shows_present(d, now_ms) ==> exists|i: int| 0 <= i < r@.len() && r@[i].0 == d,
            r@.no_duplicates(),
    {
        let views = self.list_present(now_ms);
        let mut out: Vec<DogId> = Vec::new();
        let mut i: usize = 0;
        while i < views.len()
            invariant
                i <= views@.len(),
                out@.len() == i,
                forall|k: int| 0 <= k < i ==> out@[k] == views@[k].dog_id,
            decreases views@.len() - i,
        {
            out.push(views[i].dog_id);
            i = i + 1;
        }
        proof {
            assert forall|d: u128| self.shows_present(d, now_ms) implies exists|k: int|
                0 <= k < out@.len() && out@[k].0 == d by {
                let k = choose|k: int| 0 <= k < views@.len() && views@[k].dog_id.0 == d;
                assert(out@[k] == views@[k].dog_id);
            }
            assert forall|a: int, b: int| 0 <= a < out@.len() && 0 <= b < out@.len() && a != b implies out@[a] != out@[b] by {
                if a < b {
                    assert(views@[a].dog_id != views@[b].dog_id);
                } else {
                    assert(views@[b].dog_id != views@[a].dog_id);
                }
            }
        }
        out
    }

    pub fn is_present(&self, dog_id: DogId, now_ms: i64) -> (r: bool)
        ensures
            r == self.shows_present(dog_id.0, now_ms),
    {
        match self.get(dog_id, now_ms) {
            Some(v) => v.present,
            None => false,
        }
    }
}


/// The dogs party to an invite.
pub open spec fn parties(inv: Invite) -> Set<u128> {
    set![inv.from_dog.0, inv.to_dog.0]
}

/// The times less than an hour (in whole seconds, truncated toward zero)
/// before `now`, in order.
pub open spec fn within_hour(times: Seq<i64>, now_ms: i64) -> Seq<i64>
    decreases times.len(),
{
    if times.len() == 0 {
        Seq::empty()
    } else {
        let r = within_hour(times.drop_last(), now_ms);
        if whole_seconds(now_ms - times.last()) < 3600 {
            r.push(times.last())
        } else {
            r
        }
    }
}

/// The ids of the stored invites whose ring time is over at `now`.
pub open spec fn due_ids(invites: Map<u128, Invite>, now_ms: i64) -> Set<u128> {
    invites.dom().filter(|id: u128| now_ms >= invites[id].expires_at)
}

/// The dogs party to the invites of the given ids.
pub open spec fn dogs_of(invites: Map<u128, Invite>, ids: Set<u128>) -> Set<u128> {
    Set::new(|d: u128| exists|id: u128| ids.contains(id) && parties(invites[id]).contains(d))
}

/// Ringing invites, the open invite of each dog, and each dog's invite
/// times for the hourly rate limit.
#[derive(Debug)]
pub struct InviteStore {
    by_id: HashMap<u128, Invite>,
    open_for_dog: HashMap<u128, u128>,
    invite_times: HashMap<u128, Vec<i64>>,
}

impl InviteStore {
    /// The stored invites by id.
    pub closed spec fn invites(&self) -> Map<u128, Invite> {
        self.by_id@
    }

    /// The open invite id of each dog.
    pub closed spec fn open(&self) -> Map<u128, u128> {
        self.open_for_dog@
    }

    /// The recorded invite times of each dog.
    pub closed spec fn times(&self) -> Map<u128, Seq<i64>> {
        Map::new(
            |d: u128| self.invite_times@.contains_key(d),
            |d: u128| self.invite_times@[d]@,
        )
    }

    /// Every stored invite is filed under its own id and is the open invite
    /// of both its dogs, and every open entry names a stored invite of that
    /// dog: a dog is party to at most one invite.
    pub open spec fn wf(&self) -> bool {
        &&& forall|id: u128|
            #![trigger self.invites()[id]]
            self.invites().contains_key(id) ==> {
                let inv = self.invites()[id];
                &&& inv.id.0 == id
                &&& self.open().contains_key(inv.from_dog.0)
                &&& self.open()[inv.from_dog.0] == id
                &&& self.open().contains_key(inv.to_dog.0)
                &&& self.open()[inv.to_dog.0] == id
            }
        &&& forall|d: u128|
            #![trigger self.open()[d]]
            self.open().contains_key(d) ==> self.invites().contains_key(self.open()[d])
                && parties(self.invites()[self.open()[d]]).contains(d)
    }

    pub fn new() -> (r: Self)
        ensures
            r.invites() == Map::<u128, Invite>::empty(),
            r.open() == Map::<u128, u128>::empty(),
            r.times() == Map::<u128, Seq<i64>>::empty(),
            r.wf(),
    {
        let r = InviteStore {
            by_id: HashMap::new(),
            open_for_dog: HashMap::new(),
            invite_times: HashMap::new(),
        };
        assert(r.times() =~= Map::<u128, Seq<i64>>::empty());
        r
    }

    /// File a ringing invite, unless one of its dogs already has an open
    /// invite ("busy").
    pub fn insert(&mut self, invite: Invite) -> (r: Result<(), &'static str>)
        ensures
            final(self).times() == old(self).times(),
            old(self).open().contains_key(invite.from_dog.0) || old(self).open().contains_key(
                invite.to_dog.0,
            ) ==> {
                &&& r matches Err(e) && e@ == "busy"@
                &&& final(self).invites() == old(self).invites()
                &&& final(self).open() == old(self).open()
            },
            !(old(self).open().contains_key(invite.from_dog.0) || old(self).open().contains_key(
                invite.to_dog.0,
            )) ==> {
                &&& r is Ok
                &&& final(self).invites() == old(self).invites().insert(invite.id.0, invite)
                &&& final(self).open() == old(self).open().insert(
                    invite.from_dog.0,
                    invite.id.0,
                ).insert(invite.to_dog.0, invite.id.0)
            },
            old(self).wf() && !old(self).invites().contains_key(invite.id.0) ==> final(self).wf(),
    {
        if self.open_for_dog.contains_key(&invite.from_dog.0) || self.open_for_dog.contains_key(
            &invite.to_dog.0,
        ) {
            return Err("busy");
        }
        self.open_for_dog.insert(invite.from_dog.0, invite.id.0);
        self.open_for_dog.insert(invite.to_dog.0, invite.id.0);
        self.by_id.insert(invite.id.0, invite);
        proof {
            if old(self).wf() && !old(self).invites().contains_key(invite.id.0) {
                assert forall|id: u128|
                    #![trigger self.invites()[id]]
                    self.invites().contains_key(id) implies {
                    let inv = self.invites()[id];
                    &&& inv.id.0 == id
                    &&& self.open().contains_key(inv.from_dog.0)
                    &&& self.open()[inv.from_dog.0] == id
                    &&& self.open().contains_key(inv.to_dog.0)
                    &&& self.open()[inv.to_dog.0] == id
                } by {
                    if id != invite.id.0 {
                        let inv = old(self).invites()[id];
                        assert(old(self).open()[inv.from_dog.0] == id);
                        assert(old(self).open()[inv.to_dog.0] == id);
                    }
                }
                assert forall|d: u128|
                    #![trigger self.open()[d]]
                    self.open().contains_key(d) implies self.invites().contains_key(self.open()[d])
                    && parties(self.invites()[self.open()[d]]).contains(d) by {
                    if d != invite.from_dog.0 && d != invite.to_dog.0 {
                        assert(old(self).open()[d] != invite.id.0);
                    }
                }
            }
        }
        Ok(())
    }

    pub fn get(&self, id: InviteId) -> (r: Option<Invite>)
        ensures
            r == (if self.invites().contains_key(id.0) {
                Some(self.invites()[id.0])
            } else {
                None
            }),
    {
        match self.by_id.get(&id.0) {
            Some(inv) => Some(*inv),
            None => None,
        }
    }

    /// The open invite `dog` is party to, if any.
    pub open spec fn spec_for_dog(&self, dog: DogId) -> Option<Invite> {
        if self.open().contains_key(dog.0) && self.invites().contains_key(self.open()[dog.0]) {
            Some(self.invites()[self.open()[dog.0]])
        } else {
            None
        }
    }

    pub fn for_dog(&self, dog: DogId) -> (r: Option<Invite>)
        ensures
            r == self.spec_for_dog(dog),
    {
        let id = match self.open_for_dog.get(&dog.0) {
            Some(id) => *id,
            None => {
                return None;
            },
        };
        match self.by_id.get(&id) {
            Some(inv) => Some(*inv),
            None => None,
        }
    }

    /// The invite ringing for `dog` as callee, if any.
    pub fn incoming_for(&self, dog: DogId) -> (r: Option<Invite>)
        ensures
            r == (match self.spec_for_dog(dog) {
                Some(i) => if i.to_dog == dog && i.state == SessionState::Ringing {
                    Some(i)
                } else {
                    None
                },
                None => None,
            }),
    {
        match self.for_dog(dog) {
            Some(i) => {
                if i.to_dog == dog && i.state == SessionState::Ringing {
                    Some(i)
                } else {
                    None
                }
            },
            None => None,
        }
    }

    /// Remove an invite and the open entries of both its dogs.
    pub fn close(&mut self, id: InviteId) -> (r: Option<Invite>)
        ensures
            final(self).times() == old(self).times(),
            !old(self).invites().contains_key(id.0) ==> r is None && final(self).invites() == old(self).invites() && final(self).open() == old(self).open(),
            old(self).invites().contains_key(id.0) ==> {
                let inv = old(self).invites()[id.0];
                &&& r == Some(inv)
                &&& final(self).invites() == old(self).invites().remove(id.0)
                &&& final(self).open() == old(self).open().remove(inv.from_dog.0).remove(
                    inv.to_dog.0,
                )
            },
            old(self).wf() ==> final(self).wf(),
    {
        let inv = match self.by_id.remove(&id.0) {
            Some(inv) => inv,
            None => {
                return None;
            },
        };
        self.open_for_dog.remove(&inv.from_dog.0);
        self.open_for_dog.remove(&inv.to_dog.0);
        proof {
            if old(self).wf() {
                assert forall|i: u128|
                    #![trigger self.invites()[i]]
                    self.invites().contains_key(i) implies {
                    let v = self.invites()[i];
                    &&& v.id.0 == i
                    &&& self.open().contains_key(v.from_dog.0)
                    &&& self.open()[v.from_dog.0] == i
                    &&& self.open().contains_key(v.to_dog.0)
                    &&& self.open()[v.to_dog.0] == i
                } by {
                    let v = old(self).invites()[i];
                    assert(old(self).open()[v.from_dog.0] == i);
                    assert(old(self).open()[v.to_dog.0] == i);
                    assert(old(self).open()[inv.from_dog.0] == id.0);
                    assert(old(self).open()[inv.to_dog.0] == id.0);
                }
                assert forall|d: u128|
                    #![trigger self.open()[d]]
                    self.open().contains_key(d) implies self.invites().contains_key(self.open()[d])
                    && parties(self.invites()[self.open()[d]]).contains(d) by {
                    let j = old(self).open()[d];
                    assert(old(self).invites().contains_key(j));
                    if j == id.0 {
                        assert(parties(inv).contains(d));
                    }
                }
            }
        }
        Some(inv)
    }

    /// Record that `dog` sent an invite at `at_ms`.
    pub fn record_invite(&mut self, dog: DogId, at_ms: i64)
        ensures
            final(self).invites() == old(self).invites(),
            final(self).open() == old(self).open(),
            final(self).times() == old(self).times().insert(
                dog.0,
                (if old(self).times().contains_key(dog.0) {
                    old(self).times()[dog.0]
                } else {
                    Seq::empty()
                }).push(at_ms),
            ),
    {
        let mut v: Vec<i64> = match self.invite_times.remove(&dog.0) {
            Some(v) => v,
            None => Vec::new(),
        };
        v.push(at_ms);
        self.invite_times.insert(dog.0, v);
        assert(self.times() =~= old(self).times().insert(
            dog.0,
            (if old(self).times().contains_key(dog.0) {
                old(self).times()[dog.0]
            } else {
                Seq::empty()
            }).push(at_ms),
        ));
    }

    /// Count the invites `dog` sent less than an hour (whole seconds) before
    /// `now`, and forget the older ones.
    pub fn invites_last_hour(&mut self, dog: DogId, now_ms: i64) -> (r: u32)
        ensures
            final(self).invites() == old(self).invites(),
            final(self).open() == old(self).open(),
            !old(self).times().contains_key(dog.0) ==> r == 0 && final(self).times() == old(self).times(),
            old(self).times().contains_key(dog.0) ==> {
                let kept = within_hour(old(self).times()[dog.0], now_ms);
                &&& final(self).times() == old(self).times().insert(dog.0, kept)
                &&& r == kept.len() as u32
            },
    {
        let v: Vec<i64> = match self.invite_times.remove(&dog.0) {
            Some(v) => v,
            None => {
                assert(self.times() =~= old(self).times());
                return 0;
            },
        };
        let mut kept: Vec<i64> = Vec::new();
        let mut i: usize = 0;
        while i < v.len()
            invariant
                i <= v@.len(),
                kept@ == within_hour(v@.take(i as int), now_ms),
            decreases v@.len() - i,
        {
            let t = v[i];
            let d: i128 = now_ms as i128 - t as i128;
            let secs: i128 = if d >= 0 {
                d / 1000
            } else {
                -((-d) / 1000)
            };
            assert(v@.take(i + 1).drop_last() =~= v@.take(i as int));
            if secs < 3600 {
                kept.push(t);
            }
            i = i + 1;
        }
        assert(v@.take(i as int) =~= v@);
        let n: u32 = kept.len() as u32;
        self.invite_times.insert(dog.0, kept);
        assert(self.times() =~= old(self).times().insert(dog.0, within_hour(v@, now_ms)));
        n
    }

    /// The ids of the invites due at `now`, each once.
    fn due_list(&self, now_ms: i64) -> (due: Vec<u128>)
        ensures
            due@.no_duplicates(),
            due@.to_set() == due_ids(self.invites(), now_ms),
    {
        let keys = crate::bond::map_keys(&self.by_id);
        let mut due: Vec<u128> = Vec::new();
        let mut k: usize = 0;
        while k < keys.len()
            invariant
                k <= keys@.len(),
                keys@.to_set() == self.invites().dom(),
                keys@.no_duplicates(),
                forall|i: int|
                    0 <= i < due@.len() ==> self.invites().contains_key(due@[i])
                        && now_ms >= self.invites()[due@[i]].expires_at,
                forall|j: int|
                    #![trigger keys@[j]]
                    0 <= j < k && now_ms >= self.invites()[keys@[j]].expires_at ==> due@.contains(
                        keys@[j],
                    ),
                forall|i: int|
                    #![trigger due@[i]]
                    0 <= i < due@.len() ==> exists|j: int|
                        #![trigger keys@[j]]
                        0 <= j < k && keys@[j] == due@[i],
                due@.no_duplicates(),
            decreases keys@.len() - k,
        {
            let id = keys[k];
            proof {
                assert(keys@.to_set().contains(keys@[k as int]));
            }
            let inv = self.by_id.get(&id).unwrap();
            if now_ms >= inv.expires_at {
                let ghost prev = due@;
                proof {
                    assert forall|i: int| 0 <= i < prev.len() implies prev[i] != id by {
                        let j = choose|j: int| 0 <= j < k && keys@[j] == prev[i];
                        assert(keys@[j] != keys@[k as int]);
                    }
                }
                due.push(id);
                proof {
                    assert forall|i: int|
                        #![trigger due@[i]]
                        0 <= i < due@.len() implies exists|j: int|
                        #![trigger keys@[j]]
                        0 <= j < k + 1 && keys@[j] == due@[i] by {
                        if i < prev.len() {
                            assert(due@[i] == prev[i]);
                        } else {
                            assert(keys@[k as int] == due@[i]);
                        }
                    }
                    assert forall|j: int|
                        #![trigger keys@[j]]
                        0 <= j < k + 1 && now_ms >= self.invites()[keys@[j]].expires_at implies due@.contains(
                        keys@[j],
                    ) by {
                        if j < k {
                            assert(prev.contains(keys@[j]));
                            let i = choose|i: int| 0 <= i < prev.len() && prev[i] == keys@[j];
                            assert(due@[i] == prev[i]);
                        } else {
                            assert(due@[prev.len() as int] == keys@[j]);
                        }
                    }
                }
            }
            k = k + 1;
        }
        proof {
            assert forall|id: u128| due_ids(self.invites(), now_ms).contains(id) implies due@.contains(id) by {
                assert(keys@.to_set().contains(id));
                let j = choose|j: int| 0 <= j < keys@.len() && keys@[j] == id;
            }
            assert(due@.to_set() =~= due_ids(self.invites(), now_ms));
        }
        due
    }

    /// Close the invites of the given due ids, in order.
    fn close_all(&mut self, due: &Vec<u128>, now_ms: i64) -> (out: Vec<Invite>)
        requires
            due@.no_duplicates(),
            due@.to_set() == due_ids(old(self).invites(), now_ms),
        ensures
            final(self).times() == old(self).times(),
            final(self).invites() == old(self).invites().remove_keys(due@.to_set()),
            final(self).open() == old(self).open().remove_keys(
                dogs_of(old(self).invites(), due@.to_set()),
            ),
            out@.len() == due@.len(),
            forall|a: int| 0 <= a < due@.len() ==> out@[a] == old(self).invites()[due@[a]],
            old(self).wf() ==> final(self).wf(),
    {
        let ghost start = *self;
        let mut out: Vec<Invite> = Vec::new();
        let mut i: usize = 0;
        while i < due.len()
            invariant
                start == *old(self),
                i <= due@.len(),
                due@.no_duplicates(),
                due@.to_set() == due_ids(start.invites(), now_ms),
                self.times() == start.times(),
                self.invites() == start.invites().remove_keys(due@.take(i as int).to_set()),
                self.open() == start.open().remove_keys(
                    dogs_of(start.invites(), due@.take(i as int).to_set()),
                ),
                out@.len() == i,
                forall|a: int| 0 <= a < i ==> out@[a] == start.invites()[due@[a]],
                start.wf() ==> self.wf(),
            decreases due@.len() - i,
        {
            let id = due[i];
            proof {
                assert(!due@.take(i as int).contains(id)) by {
                    if due@.take(i as int).contains(id) {
                        let a = choose|a: int| 0 <= a < i && due@.take(i as int)[a] == id;
                        assert(due@[a] == due@[i as int]);
                    }
                }
                assert(due@.to_set().contains(id));
                assert(self.invites().contains_key(id));
            }
            let closed = self.close(InviteId(id));
            match closed {
                Some(inv) => {
                    out.push(inv);
                },
                None => {},
            }
            proof {
                let t0 = due@.take(i as int);
                let t1 = due@.take(i + 1);
                assert(t1.to_set() =~= t0.to_set().insert(id)) by {
                    assert forall|x: u128| t1.to_set().contains(x) implies t0.to_set().insert(
                        id,
                    ).contains(x) by {
                        let a = choose|a: int| 0 <= a < t1.len() && t1[a] == x;
                        if a < i {
                            assert(t0[a] == x);
                        }
                    }
                    assert forall|x: u128| t0.to_set().insert(id).contains(x) implies t1.to_set().contains(
                        x,
                    ) by {
                        if x == id {
                            assert(t1[i as int] == x);
                        } else {
                            let a = choose|a: int| 0 <= a < t0.len() && t0[a] == x;
                            assert(t1[a] == x);
                        }
                    }
                }
                assert(self.invites() =~= start.invites().remove_keys(
                    due@.take(i + 1).to_set(),
                ));
                let inv = start.invites()[id];
                assert(dogs_of(start.invites(), due@.take(i + 1).to_set()) =~= dogs_of(
                    start.invites(),
                    due@.take(i as int).to_set(),
                ).union(parties(inv))) by {
                    assert forall|d: u128|
                        dogs_of(start.invites(), due@.take(i + 1).to_set()).contains(
                            d,
                        ) implies dogs_of(start.invites(), due@.take(i as int).to_set()).union(
                        parties(inv),
                    ).contains(d) by {
                        let j = choose|j: u128|
                            due@.take(i + 1).to_set().contains(j) && parties(
                                start.invites()[j],
                            ).contains(d);
                        if j != id {
                            assert(due@.take(i as int).to_set().contains(j));
                        }
                    }
                    assert forall|d: u128|
                        dogs_of(start.invites(), due@.take(i as int).to_set()).union(
                            parties(inv),
                        ).contains(d) implies dogs_of(
                        start.invites(),
                        due@.take(i + 1).to_set(),
                    ).contains(d) by {
                        if parties(inv).contains(d) {
                            assert(due@.take(i + 1).to_set().contains(id));
                        } else {
                            let j = choose|j: u128|
                                due@.take(i as int).to_set().contains(j) && parties(
                                    start.invites()[j],
                                ).contains(d);
                            assert(due@.take(i + 1).to_set().contains(j));
                        }
                    }
                }
                assert(self.open() =~= start.open().remove_keys(
                    dogs_of(start.invites(), due@.take(i + 1).to_set()),
                ));
            }
            i = i + 1;
        }
        proof {
            assert(due@.take(i as int) =~= due@);
        }
        out
    }

    /// Close every invite whose ring time is over at `now`; returns them, each
    /// once, in no promised order.
    pub fn expire_due(&mut self, now_ms: i64) -> (r: Vec<Invite>)
        ensures
            final(self).times() == old(self).times(),
            final(self).invites() == old(self).invites().remove_keys(
                due_ids(old(self).invites(), now_ms),
            ),
            final(self).open() == old(self).open().remove_keys(
                dogs_of(old(self).invites(), due_ids(old(self).invites(), now_ms)),
            ),
            r@.len() == due_ids(old(self).invites(), now_ms).len(),
            forall|i: int|
                0 <= i < r@.len() ==> listed_in(
                    old(self).invites(),
                    due_ids(old(self).invites(), now_ms),
                    #[trigger] r@[i],
                ),
            forall|id: u128|
                due_ids(old(self).invites(), now_ms).contains(id) ==> exists|i: int|
                    0 <= i < r@.len() && r@[i] == old(self).invites()[id],
            old(self).wf() ==> final(self).wf(),
    {
        let due = self.due_list(now_ms);
        let out = self.close_all(&due, now_ms);
        proof {
            lemma_listed_invites(old(self).invites(), due@, out@, due_ids(old(self).invites(), now_ms));
        }
        out
    }
}


/// Media readiness of the two dogs of a session.
#[derive(Debug, Clone, Copy, PartialEq, Eq, Structural)]
pub struct SessionExtra {
    pub media_a: bool,
    pub media_b: bool,
}

/// The record `s` with state `st`.
pub open spec fn with_state(s: SessionRecord, st: SessionState) -> SessionRecord {
    SessionRecord { state: st, ..s }
}

/// Open sessions, the session of each dog, and media readiness.
#[derive(Debug)]
pub struct SessionStore {
    by_id: HashMap<u128, SessionRecord>,
    by_dog: HashMap<u128, u128>,
    media: HashMap<u128, SessionExtra>,
}

impl SessionStore {
    /// The stored sessions by id.
    pub closed spec fn sessions(&self) -> Map<u128, SessionRecord> {
        self.by_id@
    }

    /// The session id of each dog in a session.
    pub closed spec fn dog_sessions(&self) -> Map<u128, u128> {
        self.by_dog@
    }

    /// Media readiness by session id.
    pub closed spec fn readiness(&self) -> Map<u128, SessionExtra> {
        self.media@
    }

    /// Every stored session is filed under its own id, is the session of
    /// both its dogs, and has a readiness entry; every dog entry names a
    /// stored session of that dog: a dog is in at most one session.
    pub open spec fn wf(&self) -> bool {
        &&& forall|id: u128|
            #![trigger self.sessions()[id]]
            self.sessions().contains_key(id) ==> {
                let s = self.sessions()[id];
                &&& s.id.0 == id
                &&& self.dog_sessions().contains_key(s.dog_a.0)
                &&& self.dog_sessions()[s.dog_a.0] == id
                &&& self.dog_sessions().contains_key(s.dog_b.0)
                &&& self.dog_sessions()[s.dog_b.0] == id
                &&& self.readiness().contains_key(id)
            }
        &&& forall|d: u128|
            #![trigger self.dog_sessions()[d]]
            self.dog_sessions().contains_key(d) ==> self.sessions().contains_key(
                self.dog_sessions()[d],
            ) && (self.sessions()[self.dog_sessions()[d]].dog_a.0 == d
                || self.sessions()[self.dog_sessions()[d]].dog_b.0 == d)
    }

    pub fn new() -> (r: Self)
        ensures
            r.sessions() == Map::<u128, SessionRecord>::empty(),
            r.dog_sessions() == Map::<u128, u128>::empty(),
            r.readiness() == Map::<u128, SessionExtra>::empty(),
            r.wf(),
    {
        SessionStore { by_id: HashMap::new(), by_dog: HashMap::new(), media: HashMap::new() }
    }

    /// File a session, unless one of its dogs is already in one ("busy");
    /// neither dog is media-ready yet.
    pub fn insert(&mut self, session: SessionRecord) -> (r: Result<(), &'static str>)
        ensures
            old(self).dog_sessions().contains_key(session.dog_a.0)
                || old(self).dog_sessions().contains_key(session.dog_b.0) ==> {
                &&& r matches Err(e) && e@ == "busy"@
                &&& final(self).sessions() == old(self).sessions()
                &&& final(self).dog_sessions() == old(self).dog_sessions()
                &&& final(self).readiness() == old(self).readiness()
            },
            !(old(self).dog_sessions().contains_key(session.dog_a.0)
                || old(self).dog_sessions().contains_key(session.dog_b.0)) ==> {
                &&& r is Ok
                &&& final(self).sessions() == old(self).sessions().insert(session.id.0, session)
                &&& final(self).dog_sessions() == old(self).dog_sessions().insert(
                    session.dog_a.0,
                    session.id.0,
                ).insert(session.dog_b.0, session.id.0)
                &&& final(self).readiness() == old(self).readiness().insert(
                    session.id.0,
                    SessionExtra { media_a: false, media_b: false },
                )
            },
            old(self).wf() && !old(self).sessions().contains_key(session.id.0) ==> final(self).wf(),
    {
        if self.by_dog.contains_key(&session.dog_a.0) || self.by_dog.contains_key(
            &session.dog_b.0,
        ) {
            return Err("busy");
        }
        self.by_dog.insert(session.dog_a.0, session.id.0);
        self.by_dog.insert(session.dog_b.0, session.id.0);
        self.media.insert(session.id.0, SessionExtra { media_a: false, media_b: false });
        self.by_id.insert(session.id.0, session);
        proof {
            if old(self).wf() && !old(self).sessions().contains_key(session.id.0) {
                assert forall|id: u128|
                    #![trigger self.sessions()[id]]
                    self.sessions().contains_key(id) implies {
                    let s = self.sessions()[id];
                    &&& s.id.0 == id
                    &&& self.dog_sessions().contains_key(s.dog_a.0)
                    &&& self.dog_sessions()[s.dog_a.0] == id
                    &&& self.dog_sessions().contains_key(s.dog_b.0)
                    &&& self.dog_sessions()[s.dog_b.0] == id
                    &&& self.readiness().contains_key(id)
                } by {
                    if id != session.id.0 {
                        let s = old(self).sessions()[id];
                        assert(old(self).dog_sessions()[s.dog_a.0] == id);
                        assert(old(self).dog_sessions()[s.dog_b.0] == id);
                    }
                }
                assert forall|d: u128|
                    #![trigger self.dog_sessions()[d]]
                    self.dog_sessions().contains_key(d) implies self.sessions().contains_key(
                    self.dog_sessions()[d],
                ) && (self.sessions()[self.dog_sessions()[d]].dog_a.0 == d
                    || self.sessions()[self.dog_sessions()[d]].dog_b.0 == d) by {
                    if d != session.dog_a.0 && d != session.dog_b.0 {
                        assert(old(self).dog_sessions()[d] != session.id.0);
                    }
                }
            }
        }
        Ok(())
    }

    pub fn get(&self, id: SessionId) -> (r: Option<SessionRecord>)
        ensures
            r == (if self.sessions().contains_key(id.0) {
                Some(self.sessions()[id.0])
            } else {
                None
            }),
    {
        match self.by_id.get(&id.0) {
            Some(s) => Some(*s),
            None => None,
        }
    }

    /// The session `dog` is in, if any.
    pub fn for_dog(&self, dog: DogId) -> (r: Option<SessionRecord>)
        ensures
            r == (if self.dog_sessions().contains_key(dog.0) && self.sessions().contains_key(
                self.dog_sessions()[dog.0],
            ) {
                Some(self.sessions()[self.dog_sessions()[dog.0]])
            } else {
                None
            }),
    {
        let id = match self.by_dog.get(&dog.0) {
            Some(id) => *id,
            None => {
                return None;
            },
        };
        self.get(SessionId(id))
    }

    /// Every stored session, one per id, in no promised order.
    pub fn all(&self) -> (r: Vec<SessionRecord>)
        ensures
            r@.len() == self.sessions().len(),
            forall|i: int| 0 <= i < r@.len() ==> stored_in(self.sessions(), #[trigger] r@[i]),
            forall|id: u128|
                self.sessions().contains_key(id) ==> exists|i: int|
                    0 <= i < r@.len() && r@[i] == self.sessions()[id],
    {
        let keys = crate::bond::map_keys(&self.by_id);
        let mut out: Vec<SessionRecord> = Vec::new();
        let mut i: usize = 0;
        while i < keys.len()
            invariant
                i <= keys@.len(),
                keys@.to_set() == self.sessions().dom(),
                out@.len() == i,
                forall|a: int| 0 <= a < i ==> out@[a] == self.sessions()[keys@[a]],
            decreases keys@.len() - i,
        {
            proof {
                assert(keys@.to_set().contains(keys@[i as int]));
            }
            let s = *self.by_id.get(&keys[i]).unwrap();
            out.push(s);
            i = i + 1;
        }
        proof {
            keys@.unique_seq_to_set();
            assert forall|i: int|
                0 <= i < out@.len() implies stored_in(self.sessions(), #[trigger] out@[i]) by {
                assert(keys@.to_set().contains(keys@[i]));
                assert(self.sessions().contains_key(keys@[i]) && self.sessions()[keys@[i]] == out@[i]);
            }
            assert forall|id: u128| self.sessions().contains_key(id) implies exists|i: int|
                0 <= i < out@.len() && out@[i] == self.sessions()[id] by {
                assert(keys@.to_set().contains(id));
                let a = choose|a: int| 0 <= a < keys@.len() && keys@[a] == id;
                assert(out@[a] == self.sessions()[keys@[a]]);
            }
        }
        out
    }

    /// Replace the record of session `id` by `f` of it.
    pub fn update<F: FnOnce(SessionRecord) -> SessionRecord>(&mut self, id: SessionId, f: F) -> (r:
        Option<SessionRecord>)
        requires
            old(self).sessions().contains_key(id.0) ==> f.requires(
                (old(self).sessions()[id.0],),
            ),
        ensures
            final(self).dog_sessions() == old(self).dog_sessions(),
            final(self).readiness() == old(self).readiness(),
            !old(self).sessions().contains_key(id.0) ==> r is None && final(self).sessions() == old(self).sessions(),
            old(self).sessions().contains_key(id.0) ==> exists|n: SessionRecord|
                f.ensures((old(self).sessions()[id.0],), n) && r == Some(n) && final(self).sessions() == old(self).sessions().insert(id.0, n),
    {
        let s = match self.by_id.get(&id.0) {
            Some(s) => *s,
            None => {
                return None;
            },
        };
        let n = f(s);
        self.by_id.insert(id.0, n);
        Some(n)
    }

    /// Set the state of session `id`.
    fn set_state(&mut self, id: SessionId, state: SessionState)
        requires
            old(self).sessions().contains_key(id.0),
        ensures
            final(self).dog_sessions() == old(self).dog_sessions(),
            final(self).readiness() == old(self).readiness(),
            final(self).sessions() == old(self).sessions().insert(
                id.0,
                with_state(old(self).sessions()[id.0], state),
            ),
    {
        let s = *self.by_id.get(&id.0).unwrap();
        self.by_id.insert(id.0, SessionRecord { state, ..s });
    }

    /// Remove a session, the entries of both its dogs, and its readiness.
    pub fn end(&mut self, id: SessionId) -> (r: Option<SessionRecord>)
        ensures
            !old(self).sessions().contains_key(id.0) ==> r is None && final(self).sessions() == old(self).sessions() && final(self).dog_sessions() == old(self).dog_sessions()
                && final(self).readiness() == old(self).readiness(),
            old(self).sessions().contains_key(id.0) ==> {
                let s = old(self).sessions()[id.0];
                &&& r == Some(s)
                &&& final(self).sessions() == old(self).sessions().remove(id.0)
                &&& final(self).dog_sessions() == old(self).dog_sessions().remove(s.dog_a.0).remove(
                    s.dog_b.0,
                )
                &&& final(self).readiness() == old(self).readiness().remove(id.0)
            },
            old(self).wf() ==> final(self).wf(),
    {
        let s = match self.by_id.remove(&id.0) {
            Some(s) => s,
            None => {
                return None;
            },
        };
        self.by_dog.remove(&s.dog_a.0);
        self.by_dog.remove(&s.dog_b.0);
        self.media.remove(&id.0);
        proof {
            if old(self).wf() {
                assert forall|i: u128|
                    #![trigger self.sessions()[i]]
                    self.sessions().contains_key(i) implies {
                    let v = self.sessions()[i];
                    &&& v.id.0 == i
                    &&& self.dog_sessions().contains_key(v.dog_a.0)
                    &&& self.dog_sessions()[v.dog_a.0] == i
                    &&& self.dog_sessions().contains_key(v.dog_b.0)
                    &&& self.dog_sessions()[v.dog_b.0] == i
                    &&& self.readiness().contains_key(i)
                } by {
                    let v = old(self).sessions()[i];
                    assert(old(self).dog_sessions()[v.dog_a.0] == i);
                    assert(old(self).dog_sessions()[v.dog_b.0] == i);
                    assert(old(self).dog_sessions()[s.dog_a.0] == id.0);
                    assert(old(self).dog_sessions()[s.dog_b.0] == id.0);
                }
                assert forall|d: u128|
                    #![trigger self.dog_sessions()[d]]
                    self.dog_sessions().contains_key(d) implies self.sessions().contains_key(
                    self.dog_sessions()[d],
                ) && (self.sessions()[self.dog_sessions()[d]].dog_a.0 == d
                    || self.sessions()[self.dog_sessions()[d]].dog_b.0 == d) by {
                    let j = old(self).dog_sessions()[d];
                    assert(old(self).sessions().contains_key(j));
                }
            }
        }
        Some(s)
    }

    /// Record that `dog` is (or is not) media-ready in session `id`; once
    /// both dogs are ready the session becomes Active. Returns whether both
    /// are ready and the session, or `None` for an unknown session or a dog
    /// not in it.
    pub fn set_media_ready(&mut self, id: SessionId, dog: DogId, ready: bool) -> (r: Option<
        (bool, SessionRecord),
    >)
        ensures
            final(self).dog_sessions() == old(self).dog_sessions(),
            ({
                let known = old(self).sessions().contains_key(id.0) && old(self).readiness().contains_key(id.0);
                let s = old(self).sessions()[id.0];
                let m = old(self).readiness()[id.0];
                if !known || (dog != s.dog_a && dog != s.dog_b) {
                    &&& r is None
                    &&& final(self).sessions() == old(self).sessions()
                    &&& final(self).readiness() == old(self).readiness()
                } else {
                    let m2 = if dog == s.dog_a {
                        SessionExtra { media_a: ready, media_b: m.media_b }
                    } else {
                        SessionExtra { media_a: m.media_a, media_b: ready }
                    };
                    let both = m2.media_a && m2.media_b;
                    let s2 = if both {
                        with_state(s, SessionState::Active)
                    } else {
                        s
                    };
                    &&& final(self).readiness() == old(self).readiness().insert(id.0, m2)
                    &&& final(self).sessions() == old(self).sessions().insert(id.0, s2)
                    &&& r == Some((both, s2))
                }
            }),
            old(self).wf() ==> final(self).wf(),
    {
        let sess = match self.get(id) {
            Some(s) => s,
            None => {
                return None;
            },
        };
        let m = match self.media.get(&id.0) {
            Some(m) => *m,
            None => {
                return None;
            },
        };
        let m2 = if dog == sess.dog_a {
            SessionExtra { media_a: ready, media_b: m.media_b }
        } else if dog == sess.dog_b {
            SessionExtra { media_a: m.media_a, media_b: ready }
        } else {
            return None;
        };
        self.media.insert(id.0, m2);
        let both = m2.media_a && m2.media_b;
        if both {
            self.set_state(id, SessionState::Active);
        }
        proof {
            if both {
                assert(self.sessions() =~= old(self).sessions().insert(
                    id.0,
                    with_state(sess, SessionState::Active),
                ));
            } else {
                assert(self.sessions() =~= old(self).sessions().insert(id.0, sess));
            }
        }
        let cur = self.get(id).unwrap();
        Some((both, cur))
    }
}

/// Per-dog policies and the dog bound to each terminal.
#[derive(Debug)]
pub struct PolicyStore {
    by_dog: HashMap<u128, DogPolicy>,
    terminal_dog: HashMap<u128, u128>,
}

impl PolicyStore {
    /// The stored policy of each dog.
    pub closed spec fn policies(&self) -> Map<u128, DogPolicy> {
        self.by_dog@
    }

    /// The dog bound to each terminal.
    pub closed spec fn terminals(&self) -> Map<u128, u128> {
        self.terminal_dog@
    }

    /// Whether `after` is `before` with a default policy for `dog` where
    /// `before` held none.
    pub open spec fn ensured(before: Map<u128, DogPolicy>, after: Map<u128, DogPolicy>, dog: DogId) -> bool {
        if before.contains_key(dog.0) {
            after == before
        } else {
            after.dom() == before.dom().insert(dog.0) && after.remove(dog.0) == before
                && DogPolicy::is_default_for(after[dog.0], dog)
        }
    }

    pub fn new() -> (r: Self)
        ensures
            r.policies() == Map::<u128, DogPolicy>::empty(),
            r.terminals() == Map::<u128, u128>::empty(),
    {
        PolicyStore { by_dog: HashMap::new(), terminal_dog: HashMap::new() }
    }

    /// The policy of `dog`, creating the default one where there is none.
    pub fn ensure(&mut self, dog: DogId) -> (r: DogPolicy)
        ensures
            Self::ensured(old(self).policies(), final(self).policies(), dog),
            final(self).terminals() == old(self).terminals(),
            r == final(self).policies()[dog.0],
    {
        if !self.by_dog.contains_key(&dog.0) {
            let p = DogPolicy::default_for(dog);
            self.by_dog.insert(dog.0, p);
            assert(self.policies().remove(dog.0) =~= old(self).policies());
        }
        self.by_dog.get(&dog.0).unwrap().duplicate()
    }

    pub fn get(&mut self, dog: DogId) -> (r: DogPolicy)
        ensures
            Self::ensured(old(self).policies(), final(self).policies(), dog),
            final(self).terminals() == old(self).terminals(),
            r == final(self).policies()[dog.0],
    {
        self.ensure(dog)
    }

    /// Store a policy under its dog.
    pub fn set(&mut self, policy: DogPolicy)
        ensures
            final(self).policies() == old(self).policies().insert(policy.dog_id.0, policy),
            final(self).terminals() == old(self).terminals(),
    {
        let k = policy.dog_id.0;
        self.by_dog.insert(k, policy);
    }

    /// Bind a terminal to a dog, and make sure the dog has a policy.
    pub fn bind_terminal(&mut self, terminal: TerminalId, dog: DogId)
        ensures
            final(self).terminals() == old(self).terminals().insert(terminal.0, dog.0),
            Self::ensured(old(self).policies(), final(self).policies(), dog),
    {
        self.terminal_dog.insert(terminal.0, dog.0);
        self.ensure(dog);
    }

    /// Set or clear the emergency stop of `dog`.
    pub fn set_estop(&mut self, dog: DogId, on: bool)
        ensures
            final(self).terminals() == old(self).terminals(),
            exists|mid: Map<u128, DogPolicy>|
                Self::ensured(old(self).policies(), mid, dog) && final(self).policies() == mid.insert(
                    mid[dog.0].dog_id.0,
                    DogPolicy { emergency_stop: on, ..mid[dog.0] },
                ),
    {
        let mut p = self.ensure(dog);
        let ghost mid = self.policies();
        p.emergency_stop = on;
        self.set(p);
    }

    /// Set or clear the social-disabled flag of `dog`.
    pub fn set_social_disabled(&mut self, dog: DogId, on: bool)
        ensures
            final(self).terminals() == old(self).terminals(),
            exists|mid: Map<u128, DogPolicy>|
                Self::ensured(old(self).policies(), mid, dog) && final(self).policies() == mid.insert(
                    mid[dog.0].dog_id.0,
                    DogPolicy { social_disabled: on, ..mid[dog.0] },
                ),
    {
        let mut p = self.ensure(dog);
        let ghost mid = self.policies();
        p.social_disabled = on;
        self.set(p);
    }
}

/// All control-plane state of a device API.
#[derive(Debug)]
pub struct AppData {
    pub presence: PresenceStore,
    pub bonds: BondGraph,
    pub invites: InviteStore,
    pub sessions: SessionStore,
    pub policies: PolicyStore,
}

impl AppData {
    pub fn new() -> (r: Self)
        ensures
            r.presence.entries() == Map::<u128, PresenceEntry>::empty(),
            r.bonds@ == Map::<(DogId, DogId), u16>::empty(),
            r.invites.invites() == Map::<u128, Invite>::empty(),
            r.invites.open() == Map::<u128, u128>::empty(),
            r.invites.times() == Map::<u128, Seq<i64>>::empty(),
            r.invites.wf(),
            r.sessions.sessions() == Map::<u128, SessionRecord>::empty(),
            r.sessions.dog_sessions() == Map::<u128, u128>::empty(),
            r.sessions.readiness() == Map::<u128, SessionExtra>::empty(),
            r.sessions.wf(),
            r.policies.policies() == Map::<u128, DogPolicy>::empty(),
            r.policies.terminals() == Map::<u128, u128>::empty(),
    {
        AppData {
            presence: PresenceStore::new(),
            bonds: BondGraph::new(),
            invites: InviteStore::new(),
            sessions: SessionStore::new(),
            policies: PolicyStore::new(),
        }
    }
}

/// Whether `x` is the record stored under one of the keys of `m`.
pub open spec fn stored_in(m: Map<u128, SessionRecord>, x: SessionRecord) -> bool {
    exists|id: u128| m.contains_key(id) && m[id] == x
}

/// Whether `x` is the invite of one of the given ids.
pub open spec fn listed_in(invites: Map<u128, Invite>, ids: Set<u128>, x: Invite) -> bool {
    exists|id: u128| ids.contains(id) && invites[id] == x
}

/// The invites listed for distinct ids of a set are exactly the invites of
/// that set, each once.
proof fn lemma_listed_invites(invites: Map<u128, Invite>, due: Seq<u128>, out: Seq<Invite>, ids: Set<u128>)
    requires
        due.no_duplicates(),
        due.to_set() == ids,
        out.len() == due.len(),
        forall|a: int| 0 <= a < due.len() ==> out[a] == invites[due[a]],
    ensures
        out.len() == ids.len(),
        forall|i: int| 0 <= i < out.len() ==> listed_in(invites, ids, #[trigger] out[i]),
        forall|id: u128| ids.contains(id) ==> exists|i: int| 0 <= i < out.len() && out[i] == invites[id],
{
    due.unique_seq_to_set();
    assert forall|id: u128| ids.contains(id) implies exists|i: int|
        0 <= i < out.len() && out[i] == invites[id] by {
        assert(due.to_set().contains(id));
        let a = choose|a: int| 0 <= a < due.len() && due[a] == id;
        assert(out[a] == invites[due[a]]);
    }
    assert forall|i: int| 0 <= i < out.len() implies listed_in(invites, ids, #[trigger] out[i]) by {
        assert(due.to_set().contains(due[i]));
        assert(invites[due[i]] == out[i]);
    }
}

} // verus!
