//! Restoring the in-memory stores from durable rows. Each table is loaded in
//! order; a row whose ids do not parse stops the load with an error, and the
//! rows before it stay loaded.
use crate::bond::{clamp_weight, BondGraph};
use crate::policy::DogPolicy;
use crate::text::string_push;
use crate::protocol::{
    spec_parse_mode, spec_parse_state, parse_mode, parse_state, uuid_parse, DogId, Invite, InviteId,
    SessionId, SessionRecord, SessionState, TerminalId,
};
use crate::store::{with_state, AppData, InviteStore, PolicyStore, SessionExtra, SessionStore};
use vstd::prelude::*;

verus! {

/// Why a load stopped.
#[derive(Debug, Clone, Copy, PartialEq, Eq, Structural)]
pub enum LoadError {
    /// A stored id is not a UUID.
    BadId,
}

/// A `dog_policy` row.
#[derive(Debug, Clone)]
pub struct PolicyRow {
    pub dog_id: String,
    pub timezone: String,
    pub sleep_start_min: i64,
    pub sleep_end_min: i64,
    pub utc_offset_min: i64,
    pub emergency_stop: i64,
    pub social_disabled: i64,
    pub max_invites_per_hour: i64,
    pub max_session_sec: i64,
    pub segment_sec: i64,
}

/// A `terminals` row.
#[derive(Debug, Clone)]
pub struct TerminalRow {
    pub terminal_id: String,
    pub dog_id: String,
}

/// A `bonds` row, its weight in thousandths.
#[derive(Debug, Clone)]
pub struct BondRow {
    pub dog_a: String,
    pub dog_b: String,
    pub weight_permille: u16,
}

/// An `invites` row.
#[derive(Debug, Clone)]
pub struct InviteRow {
    pub invite_id: String,
    pub from_dog: String,
    pub to_dog: String,
    pub mode: String,
    pub state: String,
    /// Stored creation time (RFC 3339, or SQLite `YYYY-MM-DD HH:MM:SS` UTC).
    pub created_at: String,
    /// Stored expiry time, in the same forms.
    pub expires_at: String,
}

/// A `sessions` row; its times are stored text as in `InviteRow`.
#[derive(Debug, Clone)]
pub struct SessionRow {
    pub session_id: String,
    pub invite_id: String,
    pub dog_a: String,
    pub dog_b: String,
    pub mode: String,
    pub state: String,
    pub started_at: String,
    pub max_end_at: String,
    pub segment_deadline_at: String,
    pub media_a: i64,
    pub media_b: i64,
}

/// Whether a text is a UUID.
pub open spec fn is_id(t: Seq<char>) -> bool {
    uuid_parse(t) is Some
}

/// The value of a UUID text.
pub open spec fn id_of(t: Seq<char>) -> u128 {
    uuid_parse(t)->Some_0
}

/// The index of the first row of `rows` that fails `ok`, or the number of
/// rows when none does.
pub open spec fn first_bad<A>(rows: Seq<A>, ok: spec_fn(A) -> bool) -> int
    decreases rows.len(),
{
    if rows.len() == 0 {
        0
    } else {
        let k = first_bad(rows.drop_last(), ok);
        if k < rows.len() - 1 {
            k
        } else if ok(rows.last()) {
            rows.len() as int
        } else {
            rows.len() - 1
        }
    }
}

/// `first_bad` is the index `i` before which every row passes and at which
/// a row fails (or the rows end).
pub proof fn lemma_first_bad<A>(rows: Seq<A>, ok: spec_fn(A) -> bool, i: int)
    requires
        0 <= i <= rows.len(),
        forall|j: int| 0 <= j < i ==> #[trigger] ok(rows[j]),
        i == rows.len() || !ok(rows[i]),
    ensures
        first_bad(rows, ok) == i,
    decreases rows.len(),
{
    if rows.len() > 0 {
        let d = rows.drop_last();
        if i < rows.len() {
            if i < d.len() {
                lemma_first_bad(d, ok, i);
            } else {
                lemma_first_bad(d, ok, d.len() as int);
            }
        } else {
            assert forall|j: int| 0 <= j < d.len() implies #[trigger] ok(d[j]) by {
                assert(ok(rows[j]));
            }
            lemma_first_bad(d, ok, d.len() as int);
        }
    }
}

fn parse_id(t: &String) -> (r: Result<u128, LoadError>)
    ensures
        match uuid_parse(t@) {
            Some(v) => r == Ok::<u128, LoadError>(v),
            None => r == Err::<u128, LoadError>(LoadError::BadId),
        },
{
    match DogId::parse(t.as_str()) {
        Some(d) => Ok(d.0),
        None => Err(LoadError::BadId),
    }
}

// ----- stored times

/// What `chrono::DateTime::parse_from_rfc3339` gives for a text, as ms
/// since the epoch (`timestamp_millis`), or `None` where it refuses it.
pub uninterp spec fn rfc3339_millis(text: Seq<char>) -> Option<i64>;

/// What `chrono::DateTime::parse_from_str(text, fmt)` gives, as ms since
/// the epoch (`timestamp_millis`), or `None` where it refuses the text.
pub uninterp spec fn chrono_parse_millis(text: Seq<char>, fmt: Seq<char>) -> Option<i64>;

/// Parse an RFC 3339 time with chrono, as ms since the epoch.
#[verifier::external_body]
fn parse_rfc3339_ms(s: &str) -> (r: Option<i64>)
    ensures
        r == rfc3339_millis(s@),
{
    match chrono::DateTime::parse_from_rfc3339(s) {
        Ok(d) => Some(d.timestamp_millis()),
        Err(_) => None,
    }
}

/// Parse `text` under the chrono format `fmt`
/// (`chrono::DateTime::parse_from_str`), as ms since the epoch.
#[verifier::external_body]
fn chrono_parse_from_str_ms(text: &str, fmt: &str) -> (r: Option<i64>)
    ensures
        r == chrono_parse_millis(text@, fmt@),
{
    match chrono::DateTime::parse_from_str(text, fmt) {
        Ok(d) => Some(d.timestamp_millis()),
        Err(_) => None,
    }
}

/// The chrono format of SQLite's `YYYY-MM-DD HH:MM:SS` datetime followed by
/// an explicit offset.
pub const SQLITE_DATETIME_FORMAT: &'static str = "%Y-%m-%d %H:%M:%S%z";

/// The offset of a stored SQLite datetime: SQLite keeps times in UTC.
pub open spec fn utc_offset() -> Seq<char> {
    seq!['+', '0', '0', ':', '0', '0']
}

/// The text of a stored SQLite datetime with its UTC offset spelled out.
pub fn with_utc_offset(s: &str) -> (r: String)
    ensures
        r@ == s@ + utc_offset(),
{
    let mut t = s.to_owned();
    string_push(&mut t, '+');
    string_push(&mut t, '0');
    string_push(&mut t, '0');
    string_push(&mut t, ':');
    string_push(&mut t, '0');
    string_push(&mut t, '0');
    assert(t@ =~= s@ + utc_offset());
    t
}

/// The time a stored text stands for: RFC 3339, else SQLite's UTC
/// datetime, else `now_ms`.
pub open spec fn stored_ms(text: Seq<char>, now_ms: i64) -> i64 {
    match rfc3339_millis(text) {
        Some(t) => t,
        None => match chrono_parse_millis(text + utc_offset(), SQLITE_DATETIME_FORMAT@) {
            Some(t) => t,
            None => now_ms,
        },
    }
}

/// Read a stored time (see `stored_ms`).
pub fn stored_time_ms(s: &str, now_ms: i64) -> (r: i64)
    ensures
        r == stored_ms(s@, now_ms),
{
    match parse_rfc3339_ms(s) {
        Some(t) => t,
        None => {
            let text = with_utc_offset(s);
            match chrono_parse_from_str_ms(text.as_str(), SQLITE_DATETIME_FORMAT) {
                Some(t) => t,
                None => now_ms,
            }
        },
    }
}

// ----- policies

pub open spec fn policy_row_ok(r: PolicyRow) -> bool {
    is_id(r.dog_id@)
}

/// The policy a row stands for: integers narrowed by truncation, flags
/// true when non-zero.
pub open spec fn policy_of(r: PolicyRow) -> DogPolicy {
    DogPolicy {
        dog_id: DogId(id_of(r.dog_id@)),
        timezone: r.timezone,
        sleep_start_min: r.sleep_start_min as u16,
        sleep_end_min: r.sleep_end_min as u16,
        utc_offset_min: r.utc_offset_min as i16,
        emergency_stop: r.emergency_stop != 0,
        social_disabled: r.social_disabled != 0,
        max_invites_per_hour: r.max_invites_per_hour as u32,
        max_session_sec: r.max_session_sec as u64,
        segment_sec: r.segment_sec as u64,
    }
}

/// The policies after storing each row's policy in order.
pub open spec fn policies_after(m: Map<u128, DogPolicy>, rows: Seq<PolicyRow>) -> Map<u128, DogPolicy>
    decreases rows.len(),
{
    if rows.len() == 0 {
        m
    } else {
        let p = policy_of(rows.last());
        policies_after(m, rows.drop_last()).insert(p.dog_id.0, p)
    }
}

pub fn load_policies(store: &mut PolicyStore, rows: &[PolicyRow]) -> (r: Result<(), LoadError>)
    ensures
        r is Ok <==> first_bad(rows@, |x: PolicyRow| policy_row_ok(x)) == rows@.len(),
        final(store).policies() == policies_after(
            old(store).policies(),
            rows@.take(first_bad(rows@, |x: PolicyRow| policy_row_ok(x))),
        ),
        final(store).terminals() == old(store).terminals(),
{
    let mut i: usize = 0;
    while i < rows.len()
        invariant
            i <= rows@.len(),
            forall|j: int| 0 <= j < i ==> policy_row_ok(#[trigger] rows@[j]),
            store.policies() == policies_after(old(store).policies(), rows@.take(i as int)),
            store.terminals() == old(store).terminals(),
        decreases rows@.len() - i,
    {
        let row = &rows[i];
        let dog = match parse_id(&row.dog_id) {
            Ok(v) => v,
            Err(e) => {
                proof {
                    lemma_first_bad(rows@, |x: PolicyRow| policy_row_ok(x), i as int);
                }
                return Err(e);
            },
        };
        let p = DogPolicy {
            dog_id: DogId(dog),
            timezone: row.timezone.clone(),
            sleep_start_min: row.sleep_start_min as u16,
            sleep_end_min: row.sleep_end_min as u16,
            utc_offset_min: row.utc_offset_min as i16,
            emergency_stop: row.emergency_stop != 0,
            social_disabled: row.social_disabled != 0,
            max_invites_per_hour: row.max_invites_per_hour as u32,
            max_session_sec: row.max_session_sec as u64,
            segment_sec: row.segment_sec as u64,
        };
        store.set(p);
        proof {
            assert(rows@.take(i + 1).drop_last() =~= rows@.take(i as int));
            assert(rows@.take(i + 1).last() == rows@[i as int]);
        }
        i = i + 1;
    }
    assert(rows@.take(i as int) =~= rows@);
    proof {
        lemma_first_bad(rows@, |x: PolicyRow| policy_row_ok(x), i as int);
    }
    Ok(())
}

// ----- terminals

pub open spec fn terminal_row_ok(r: TerminalRow) -> bool {
    is_id(r.terminal_id@) && is_id(r.dog_id@)
}

/// The terminal bindings after binding each row's terminal to its dog.
pub open spec fn terminals_after(m: Map<u128, u128>, rows: Seq<TerminalRow>) -> Map<u128, u128>
    decreases rows.len(),
{
    if rows.len() == 0 {
        m
    } else {
        terminals_after(m, rows.drop_last()).insert(
            id_of(rows.last().terminal_id@),
            id_of(rows.last().dog_id@),
        )
    }
}

/// The dogs that a run of terminal rows names.
pub open spec fn row_dogs(rows: Seq<TerminalRow>) -> Set<u128> {
    Set::new(|d: u128| exists|i: int| 0 <= i < rows.len() && id_of(rows[i].dog_id@) == d)
}

/// Whether `after` is `before` with a default policy added for each dog of
/// `dogs` that had none.
pub open spec fn defaults_added(before: Map<u128, DogPolicy>, after: Map<u128, DogPolicy>, dogs: Set<u128>) -> bool {
    &&& after.dom() == before.dom().union(dogs)
    &&& forall|d: u128| #[trigger] before.contains_key(d) ==> after[d] == before[d]
    &&& forall|d: u128|
        #[trigger] after.contains_key(d) && !before.contains_key(d) ==> DogPolicy::is_default_for(
            after[d],
            DogId(d),
        )
}

pub fn load_terminals(store: &mut PolicyStore, rows: &[TerminalRow]) -> (r: Result<(), LoadError>)
    ensures
        r is Ok <==> first_bad(rows@, |x: TerminalRow| terminal_row_ok(x)) == rows@.len(),
        final(store).terminals() == terminals_after(
            old(store).terminals(),
            rows@.take(first_bad(rows@, |x: TerminalRow| terminal_row_ok(x))),
        ),
        defaults_added(
            old(store).policies(),
            final(store).policies(),
            row_dogs(rows@.take(first_bad(rows@, |x: TerminalRow| terminal_row_ok(x)))),
        ),
{
    let mut i: usize = 0;
    assert(row_dogs(rows@.take(0)) =~= Set::<u128>::empty());
    assert(store.policies().dom().union(Set::<u128>::empty()) =~= store.policies().dom());
    while i < rows.len()
        invariant
            i <= rows@.len(),
            forall|j: int| 0 <= j < i ==> terminal_row_ok(#[trigger] rows@[j]),
            store.terminals() == terminals_after(old(store).terminals(), rows@.take(i as int)),
            defaults_added(old(store).policies(), store.policies(), row_dogs(rows@.take(i as int))),
        decreases rows@.len() - i,
    {
        let row = &rows[i];
        let t = match parse_id(&row.terminal_id) {
            Ok(v) => v,
            Err(e) => {
                proof {
                    lemma_first_bad(rows@, |x: TerminalRow| terminal_row_ok(x), i as int);
                }
                return Err(e);
            },
        };
        let d = match parse_id(&row.dog_id) {
            Ok(v) => v,
            Err(e) => {
                proof {
                    lemma_first_bad(rows@, |x: TerminalRow| terminal_row_ok(x), i as int);
                }
                return Err(e);
            },
        };
        let ghost mid = store.policies();
        store.bind_terminal(TerminalId(t), DogId(d));
        proof {
            let before = rows@.take(i as int);
            let after = rows@.take(i + 1);
            assert(after.drop_last() =~= before);
            assert(after.last() == rows@[i as int]);
            assert(row_dogs(after) =~= row_dogs(before).insert(d)) by {
                assert forall|x: u128| row_dogs(after).contains(x) implies row_dogs(before).insert(
                    d,
                ).contains(x) by {
                    let k = choose|k: int| 0 <= k < after.len() && id_of(after[k].dog_id@) == x;
                    if k < before.len() {
                        assert(before[k] == after[k]);
                    }
                }
                assert forall|x: u128| row_dogs(before).insert(d).contains(x) implies row_dogs(
                    after,
                ).contains(x) by {
                    if x == d {
                        assert(id_of(after[i as int].dog_id@) == x);
                    } else {
                        let k = choose|k: int| 0 <= k < before.len() && id_of(before[k].dog_id@) == x;
                        assert(after[k] == before[k]);
                    }
                }
            }
            assert(store.policies().dom() =~= old(store).policies().dom().union(row_dogs(after)));
        }
        i = i + 1;
    }
    assert(rows@.take(i as int) =~= rows@);
    proof {
        lemma_first_bad(rows@, |x: TerminalRow| terminal_row_ok(x), i as int);
    }
    Ok(())
}

// ----- bonds

pub open spec fn bond_row_ok(r: BondRow) -> bool {
    is_id(r.dog_a@) && is_id(r.dog_b@)
}

/// The bond weights after setting each row's weight, capped, in order.
pub open spec fn bonds_after(m: Map<(DogId, DogId), u16>, rows: Seq<BondRow>) -> Map<(DogId, DogId), u16>
    decreases rows.len(),
{
    if rows.len() == 0 {
        m
    } else {
        let r = rows.last();
        bonds_after(m, rows.drop_last()).insert(
            (DogId(id_of(r.dog_a@)), DogId(id_of(r.dog_b@))),
            clamp_weight(r.weight_permille),
        )
    }
}

pub fn load_bonds(g: &mut BondGraph, rows: &[BondRow]) -> (r: Result<(), LoadError>)
    ensures
        r is Ok <==> first_bad(rows@, |x: BondRow| bond_row_ok(x)) == rows@.len(),
        final(g)@ == bonds_after(old(g)@, rows@.take(first_bad(rows@, |x: BondRow| bond_row_ok(x)))),
{
    let mut i: usize = 0;
    while i < rows.len()
        invariant
            i <= rows@.len(),
            forall|j: int| 0 <= j < i ==> bond_row_ok(#[trigger] rows@[j]),
            g@ == bonds_after(old(g)@, rows@.take(i as int)),
        decreases rows@.len() - i,
    {
        let row = &rows[i];
        let a = match parse_id(&row.dog_a) {
            Ok(v) => v,
            Err(e) => {
                proof {
                    lemma_first_bad(rows@, |x: BondRow| bond_row_ok(x), i as int);
                }
                return Err(e);
            },
        };
        let b = match parse_id(&row.dog_b) {
            Ok(v) => v,
            Err(e) => {
                proof {
                    lemma_first_bad(rows@, |x: BondRow| bond_row_ok(x), i as int);
                }
                return Err(e);
            },
        };
        g.set_weight(DogId(a), DogId(b), row.weight_permille);
        proof {
            assert(rows@.take(i + 1).drop_last() =~= rows@.take(i as int));
            assert(rows@.take(i + 1).last() == rows@[i as int]);
        }
        i = i + 1;
    }
    assert(rows@.take(i as int) =~= rows@);
    proof {
        lemma_first_bad(rows@, |x: BondRow| bond_row_ok(x), i as int);
    }
    Ok(())
}

// ----- invites

pub open spec fn invite_row_ok(r: InviteRow) -> bool {
    is_id(r.invite_id@) && is_id(r.from_dog@) && is_id(r.to_dog@)
}

/// The invite a row stands for.
pub open spec fn invite_of(r: InviteRow, now_ms: i64) -> Invite {
    Invite {
        id: InviteId(id_of(r.invite_id@)),
        from_dog: DogId(id_of(r.from_dog@)),
        to_dog: DogId(id_of(r.to_dog@)),
        mode: spec_parse_mode(r.mode@),
        state: spec_parse_state(r.state@),
        created_at: stored_ms(r.created_at@, now_ms),
        expires_at: stored_ms(r.expires_at@, now_ms),
    }
}

/// Stored invites and open entries after filing `inv`, unless one of its
/// dogs already has an open invite.
pub open spec fn invite_step(st: (Map<u128, Invite>, Map<u128, u128>), inv: Invite) -> (
    Map<u128, Invite>,
    Map<u128, u128>,
) {
    if st.1.contains_key(inv.from_dog.0) || st.1.contains_key(inv.to_dog.0) {
        st
    } else {
        (st.0.insert(inv.id.0, inv), st.1.insert(inv.from_dog.0, inv.id.0).insert(inv.to_dog.0, inv.id.0))
    }
}

pub open spec fn invites_after(
    st: (Map<u128, Invite>, Map<u128, u128>),
    rows: Seq<InviteRow>,
    now_ms: i64,
) -> (
    Map<u128, Invite>,
    Map<u128, u128>,
)
    decreases rows.len(),
{
    if rows.len() == 0 {
        st
    } else {
        invite_step(invites_after(st, rows.drop_last(), now_ms), invite_of(rows.last(), now_ms))
    }
}

pub fn load_invites(store: &mut InviteStore, rows: &[InviteRow], now_ms: i64) -> (r: Result<(), LoadError>)
    ensures
        r is Ok <==> first_bad(rows@, |x: InviteRow| invite_row_ok(x)) == rows@.len(),
        (final(store).invites(), final(store).open()) == invites_after(
            (old(store).invites(), old(store).open()),
            rows@.take(first_bad(rows@, |x: InviteRow| invite_row_ok(x))),
            now_ms,
        ),
        final(store).times() == old(store).times(),
{
    let mut i: usize = 0;
    while i < rows.len()
        invariant
            i <= rows@.len(),
            forall|j: int| 0 <= j < i ==> invite_row_ok(#[trigger] rows@[j]),
            (store.invites(), store.open()) == invites_after(
                (old(store).invites(), old(store).open()),
                rows@.take(i as int),
                now_ms,
            ),
            store.times() == old(store).times(),
        decreases rows@.len() - i,
    {
        let row = &rows[i];
        let id = match parse_id(&row.invite_id) {
            Ok(v) => v,
            Err(e) => {
                proof {
                    lemma_first_bad(rows@, |x: InviteRow| invite_row_ok(x), i as int);
                }
                return Err(e);
            },
        };
        let from = match parse_id(&row.from_dog) {
            Ok(v) => v,
            Err(e) => {
                proof {
                    lemma_first_bad(rows@, |x: InviteRow| invite_row_ok(x), i as int);
                }
                return Err(e);
            },
        };
        let to = match parse_id(&row.to_dog) {
            Ok(v) => v,
            Err(e) => {
                proof {
                    lemma_first_bad(rows@, |x: InviteRow| invite_row_ok(x), i as int);
                }
                return Err(e);
            },
        };
        let inv = Invite {
            id: InviteId(id),
            from_dog: DogId(from),
            to_dog: DogId(to),
            mode: parse_mode(row.mode.as_str()),
            state: parse_state(row.state.as_str()),
            created_at: stored_time_ms(row.created_at.as_str(), now_ms),
            expires_at: stored_time_ms(row.expires_at.as_str(), now_ms),
        };
        let _ = store.insert(inv);
        proof {
            assert(rows@.take(i + 1).drop_last() =~= rows@.take(i as int));
            assert(rows@.take(i + 1).last() == rows@[i as int]);
        }
        i = i + 1;
    }
    assert(rows@.take(i as int) =~= rows@);
    proof {
        lemma_first_bad(rows@, |x: InviteRow| invite_row_ok(x), i as int);
    }
    Ok(())
}

// ----- sessions

pub open spec fn session_row_ok(r: SessionRow) -> bool {
    is_id(r.session_id@) && is_id(r.invite_id@) && is_id(r.dog_a@) && is_id(r.dog_b@)
}

/// The session a row stands for.
pub open spec fn session_of(r: SessionRow, now_ms: i64) -> SessionRecord {
    SessionRecord {
        id: SessionId(id_of(r.session_id@)),
        invite_id: InviteId(id_of(r.invite_id@)),
        dog_a: DogId(id_of(r.dog_a@)),
        dog_b: DogId(id_of(r.dog_b@)),
        mode: spec_parse_mode(r.mode@),
        state: spec_parse_state(r.state@),
        started_at: stored_ms(r.started_at@, now_ms),
        max_end_at: stored_ms(r.max_end_at@, now_ms),
        segment_deadline_at: stored_ms(r.segment_deadline_at@, now_ms),
    }
}

/// Sessions by id, the session of each dog, and media readiness by id.
pub type SessionMaps = (Map<u128, SessionRecord>, Map<u128, u128>, Map<u128, SessionExtra>);

/// The maps after filing session `s`, unless one of its dogs is already in
/// a session.
pub open spec fn session_insert_step(st: SessionMaps, s: SessionRecord) -> SessionMaps {
    if st.1.contains_key(s.dog_a.0) || st.1.contains_key(s.dog_b.0) {
        st
    } else {
        (
            st.0.insert(s.id.0, s),
            st.1.insert(s.dog_a.0, s.id.0).insert(s.dog_b.0, s.id.0),
            st.2.insert(s.id.0, SessionExtra { media_a: false, media_b: false }),
        )
    }
}

/// The maps after `dog` reports media readiness in session `id` (see
/// `SessionStore::set_media_ready`).
pub open spec fn media_step(st: SessionMaps, id: u128, dog: DogId) -> SessionMaps {
    let known = st.0.contains_key(id) && st.2.contains_key(id);
    let s = st.0[id];
    let m = st.2[id];
    if !known || (dog != s.dog_a && dog != s.dog_b) {
        st
    } else {
        let m2 = if dog == s.dog_a {
            SessionExtra { media_a: true, media_b: m.media_b }
        } else {
            SessionExtra { media_a: m.media_a, media_b: true }
        };
        let s2 = if m2.media_a && m2.media_b {
            with_state(s, SessionState::Active)
        } else {
            s
        };
        (st.0.insert(id, s2), st.1, st.2.insert(id, m2))
    }
}

/// The maps after one row: its session filed, then each flagged dog
/// media-ready.
pub open spec fn session_row_step(st: SessionMaps, r: SessionRow, now_ms: i64) -> SessionMaps {
    let s = session_of(r, now_ms);
    let st1 = session_insert_step(st, s);
    let st2 = if r.media_a != 0 {
        media_step(st1, s.id.0, s.dog_a)
    } else {
        st1
    };
    if r.media_b != 0 {
        media_step(st2, s.id.0, s.dog_b)
    } else {
        st2
    }
}

pub open spec fn sessions_after(st: SessionMaps, rows: Seq<SessionRow>, now_ms: i64) -> SessionMaps
    decreases rows.len(),
{
    if rows.len() == 0 {
        st
    } else {
        session_row_step(sessions_after(st, rows.drop_last(), now_ms), rows.last(), now_ms)
    }
}

/// The maps of a session store.
pub open spec fn maps_of(s: SessionStore) -> SessionMaps {
    (s.sessions(), s.dog_sessions(), s.readiness())
}

pub fn load_sessions(store: &mut SessionStore, rows: &[SessionRow], now_ms: i64) -> (r: Result<(), LoadError>)
    ensures
        r is Ok <==> first_bad(rows@, |x: SessionRow| session_row_ok(x)) == rows@.len(),
        maps_of(*final(store)) == sessions_after(
            maps_of(*old(store)),
            rows@.take(first_bad(rows@, |x: SessionRow| session_row_ok(x))),
            now_ms,
        ),
{
    let mut i: usize = 0;
    while i < rows.len()
        invariant
            i <= rows@.len(),
            forall|j: int| 0 <= j < i ==> session_row_ok(#[trigger] rows@[j]),
            maps_of(*store) == sessions_after(maps_of(*old(store)), rows@.take(i as int), now_ms),
        decreases rows@.len() - i,
    {
        let row = &rows[i];
        let id = match parse_id(&row.session_id) {
            Ok(v) => v,
            Err(e) => {
                proof {
                    lemma_first_bad(rows@, |x: SessionRow| session_row_ok(x), i as int);
                }
                return Err(e);
            },
        };
        let inv = match parse_id(&row.invite_id) {
            Ok(v) => v,
            Err(e) => {
                proof {
                    lemma_first_bad(rows@, |x: SessionRow| session_row_ok(x), i as int);
                }
                return Err(e);
            },
        };
        let a = match parse_id(&row.dog_a) {
            Ok(v) => v,
            Err(e) => {
                proof {
                    lemma_first_bad(rows@, |x: SessionRow| session_row_ok(x), i as int);
                }
                return Err(e);
            },
        };
        let b = match parse_id(&row.dog_b) {
            Ok(v) => v,
            Err(e) => {
                proof {
                    lemma_first_bad(rows@, |x: SessionRow| session_row_ok(x), i as int);
                }
                return Err(e);
            },
        };
        let sess = SessionRecord {
            id: SessionId(id),
            invite_id: InviteId(inv),
            dog_a: DogId(a),
            dog_b: DogId(b),
            mode: parse_mode(row.mode.as_str()),
            state: parse_state(row.state.as_str()),
            started_at: stored_time_ms(row.started_at.as_str(), now_ms),
            max_end_at: stored_time_ms(row.max_end_at.as_str(), now_ms),
            segment_deadline_at: stored_time_ms(row.segment_deadline_at.as_str(), now_ms),
        };
        let _ = store.insert(sess);
        if row.media_a != 0 {
            let _ = store.set_media_ready(sess.id, sess.dog_a, true);
        }
        if row.media_b != 0 {
            let _ = store.set_media_ready(sess.id, sess.dog_b, true);
        }
        proof {
            assert(rows@.take(i + 1).drop_last() =~= rows@.take(i as int));
            assert(rows@.take(i + 1).last() == rows@[i as int]);
        }
        i = i + 1;
    }
    assert(rows@.take(i as int) =~= rows@);
    proof {
        lemma_first_bad(rows@, |x: SessionRow| session_row_ok(x), i as int);
    }
    Ok(())
}

/// Load every table in order: policies, terminals, bonds, invites, then
/// sessions. Stored times are read by `stored_ms`, an unreadable one as
/// `now_ms`. An invite or session whose dog is already busy is skipped. A row
/// with an id that is not a UUID stops the load with `BadId`; the rows and
/// tables before it stay loaded, the tables after it are not touched.
#[verifier::rlimit(40)]
pub fn load_into(
    data: &mut AppData,
    policies: &[PolicyRow],
    terminals: &[TerminalRow],
    bonds: &[BondRow],
    invites: &[InviteRow],
    sessions: &[SessionRow],
    now_ms: i64,
) -> (r: Result<(), LoadError>)
    ensures
        ({
            let pp = first_bad(policies@, |x: PolicyRow| policy_row_ok(x));
            let pt = first_bad(terminals@, |x: TerminalRow| terminal_row_ok(x));
            let pb = first_bad(bonds@, |x: BondRow| bond_row_ok(x));
            let pi = first_bad(invites@, |x: InviteRow| invite_row_ok(x));
            let ps = first_bad(sessions@, |x: SessionRow| session_row_ok(x));
            let p_done = pp == policies@.len();
            let t_done = p_done && pt == terminals@.len();
            let b_done = t_done && pb == bonds@.len();
            let i_done = b_done && pi == invites@.len();
            let s_done = i_done && ps == sessions@.len();
            let pol = policies_after(old(data).policies.policies(), policies@.take(pp));
            &&& r is Ok <==> s_done
            &&& final(data).presence == old(data).presence
            &&& !p_done ==> final(data).policies.policies() == pol
                && final(data).policies.terminals() == old(data).policies.terminals()
            &&& p_done ==> defaults_added(
                pol,
                final(data).policies.policies(),
                row_dogs(terminals@.take(pt)),
            ) && final(data).policies.terminals() == terminals_after(
                old(data).policies.terminals(),
                terminals@.take(pt),
            )
            &&& !t_done ==> final(data).bonds == old(data).bonds
            &&& t_done ==> final(data).bonds@ == bonds_after(old(data).bonds@, bonds@.take(pb))
            &&& !b_done ==> final(data).invites == old(data).invites
            &&& b_done ==> (final(data).invites.invites(), final(data).invites.open())
                == invites_after(
                (old(data).invites.invites(), old(data).invites.open()),
                invites@.take(pi),
                now_ms,
            ) && final(data).invites.times() == old(data).invites.times()
            &&& !i_done ==> final(data).sessions == old(data).sessions
            &&& i_done ==> maps_of(final(data).sessions) == sessions_after(
                maps_of(old(data).sessions),
                sessions@.take(ps),
                now_ms,
            )
        }),
{
    load_policies(&mut data.policies, policies)?;
    load_terminals(&mut data.policies, terminals)?;
    load_bonds(&mut data.bonds, bonds)?;
    load_invites(&mut data.invites, invites, now_ms)?;
    load_sessions(&mut data.sessions, sessions, now_ms)?;
    Ok(())
}

} // verus!
