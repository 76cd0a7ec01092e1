//! Presence fusion: mat force + ToF + motion -> debounced present flag.
//!
//! Architecture defaults:
//! - enter debounce 800 ms
//! - exit debounce 2500 ms
//! - present_raw = (F > F_min) AND (ToF in band OR motion)
//!
//! Force is held in tenths of a newton and confidence in hundredths.
use crate::protocol::{ForceBand, PRESENCE_ENTER_MS, PRESENCE_EXIT_MS};
use vstd::prelude::*;

verus! {

/// Tunable thresholds (per terminal / dog size class later).
#[derive(Debug, Clone, Copy, PartialEq, Eq, Structural)]
pub struct PresenceConfig {
    /// Mat force that raw presence must exceed, in tenths of a newton.
    pub force_min_deci_n: u32,
    pub tof_near_mm: u16,
    pub tof_far_mm: u16,
    pub enter_ms: u64,
    pub exit_ms: u64,
}

impl PresenceConfig {
    /// The architecture defaults: 25 N, ToF band 50..=900 mm, enter 800 ms,
    /// exit 2500 ms.
    pub open spec fn spec_default() -> PresenceConfig {
        PresenceConfig {
            force_min_deci_n: 250,
            tof_near_mm: 50,
            tof_far_mm: 900,
            enter_ms: PRESENCE_ENTER_MS,
            exit_ms: PRESENCE_EXIT_MS,
        }
    }
}

impl Default for PresenceConfig {
    fn default() -> (r: Self)
        ensures
            r == PresenceConfig::spec_default(),
    {
        PresenceConfig {
            force_min_deci_n: 250,
            tof_near_mm: 50,
            tof_far_mm: 900,
            enter_ms: PRESENCE_ENTER_MS,
            exit_ms: PRESENCE_EXIT_MS,
        }
    }
}

/// One raw sensor observation.
#[derive(Debug, Clone, Copy, PartialEq, Eq, Structural)]
pub struct SenseSample {
    /// Mat force, in tenths of a newton.
    pub force_deci_n: u32,
    pub tof_mm: Option<u16>,
    pub motion: bool,
    /// Monotonic ms clock (edge local).
    pub t_ms: u64,
}

/// The state of a presence filter, apart from its configuration.
pub struct PresenceState {
    pub present: bool,
    pub raw: bool,
    pub raw_since_ms: u64,
    pub last_t_ms: u64,
    pub confidence_pct: u8,
    pub last_force_deci_n: u32,
    pub last_tof: Option<u16>,
}

/// Whether a ToF reading lies in the configured band.
pub open spec fn tof_in_band(cfg: PresenceConfig, tof: Option<u16>) -> bool {
    match tof {
        Some(d) => cfg.tof_near_mm <= d <= cfg.tof_far_mm,
        None => false,
    }
}

/// Undebounced presence of one sample.
pub open spec fn spec_raw_present(cfg: PresenceConfig, s: SenseSample) -> bool {
    s.force_deci_n > cfg.force_min_deci_n && (tof_in_band(cfg, s.tof_mm) || s.motion)
}

/// Confidence (hundredths) of one sample: 5 when not raw-present, else
/// 40 + 35 (force) + 20 (ToF in band) + 5 (motion), capped at 100.
pub open spec fn spec_confidence(cfg: PresenceConfig, s: SenseSample, raw: bool) -> u8 {
    if !raw {
        5
    } else {
        let c = 40 + (if s.force_deci_n >= cfg.force_min_deci_n {
            35int
        } else {
            0
        }) + (if tof_in_band(cfg, s.tof_mm) {
            20int
        } else {
            0
        }) + (if s.motion {
            5int
        } else {
            0
        });
        if c > 100 {
            100
        } else {
            c as u8
        }
    }
}

/// `t - since`, or 0 where `since` is later.
pub open spec fn held_ms(t: u64, since: u64) -> u64 {
    if t >= since {
        (t - since) as u64
    } else {
        0
    }
}

/// The state after ingesting sample `s`. The raw flag and the time it last
/// changed follow the sample; `present` turns on once raw presence has held
/// for `enter_ms` and off once raw absence has held for `exit_ms`.
pub open spec fn next_state(cfg: PresenceConfig, st: PresenceState, s: SenseSample) -> PresenceState {
    let raw = spec_raw_present(cfg, s);
    let since = if raw != st.raw {
        s.t_ms
    } else {
        st.raw_since_ms
    };
    let held = held_ms(s.t_ms, since);
    let present = if !st.present && raw && held >= cfg.enter_ms {
        true
    } else if st.present && !raw && held >= cfg.exit_ms {
        false
    } else {
        st.present
    };
    PresenceState {
        present,
        raw,
        raw_since_ms: since,
        last_t_ms: s.t_ms,
        confidence_pct: spec_confidence(cfg, s, raw),
        last_force_deci_n: s.force_deci_n,
        last_tof: s.tof_mm,
    }
}

/// Debounced presence state machine.
#[derive(Debug, Clone)]
pub struct PresenceFilter {
    cfg: PresenceConfig,
    present: bool,
    raw: bool,
    raw_since_ms: u64,
    last_t_ms: u64,
    confidence_pct: u8,
    last_force_deci_n: u32,
    last_tof: Option<u16>,
}

impl PresenceFilter {
    /// The thresholds this filter applies.
    pub closed spec fn config(&self) -> PresenceConfig {
        self.cfg
    }

    pub fn cfg(&self) -> (r: PresenceConfig)
        ensures
            r == self.config(),
    {
        self.cfg
    }

    pub closed spec fn view(&self) -> PresenceState {
        PresenceState {
            present: self.present,
            raw: self.raw,
            raw_since_ms: self.raw_since_ms,
            last_t_ms: self.last_t_ms,
            confidence_pct: self.confidence_pct,
            last_force_deci_n: self.last_force_deci_n,
            last_tof: self.last_tof,
        }
    }

    /// The state of a fresh filter: absent, nothing seen.
    pub open spec fn initial_state() -> PresenceState {
        PresenceState {
            present: false,
            raw: false,
            raw_since_ms: 0,
            last_t_ms: 0,
            confidence_pct: 0,
            last_force_deci_n: 0,
            last_tof: None,
        }
    }

    pub fn new(cfg: PresenceConfig) -> (r: Self)
        ensures
            r.config() == cfg,
            r@ == Self::initial_state(),
    {
        PresenceFilter {
            cfg,
            present: false,
            raw: false,
            raw_since_ms: 0,
            last_t_ms: 0,
            confidence_pct: 0,
            last_force_deci_n: 0,
            last_tof: None,
        }
    }

    pub fn present(&self) -> (r: bool)
        ensures
            r == self@.present,
    {
        self.present
    }

    /// Confidence of the last sample, in hundredths.
    pub fn confidence_pct(&self) -> (r: u8)
        ensures
            r == self@.confidence_pct,
    {
        self.confidence_pct
    }

    /// Force of the last sample, in tenths of a newton.
    pub fn last_force_deci_n(&self) -> (r: u32)
        ensures
            r == self@.last_force_deci_n,
    {
        self.last_force_deci_n
    }

    /// The force band of the last sample.
    pub fn force_band(&self) -> (r: ForceBand)
        ensures
            r == ForceBand::spec_from_deci_newtons(self@.last_force_deci_n),
    {
        ForceBand::from_deci_newtons(self.last_force_deci_n)
    }

    pub fn last_tof_mm(&self) -> (r: Option<u16>)
        ensures
            r == self@.last_tof,
    {
        self.last_tof
    }

    fn tof_ok(&self, tof: Option<u16>) -> (r: bool)
        ensures
            r == tof_in_band(self.cfg, tof),
    {
        match tof {
            Some(d) => d >= self.cfg.tof_near_mm && d <= self.cfg.tof_far_mm,
            None => false,
        }
    }

    fn raw_present(&self, s: &SenseSample) -> (r: bool)
        ensures
            r == spec_raw_present(self.cfg, *s),
    {
        let force_ok = s.force_deci_n > self.cfg.force_min_deci_n;
        let tof_ok = self.tof_ok(s.tof_mm);
        force_ok && (tof_ok || s.motion)
    }

    fn confidence_of(&self, s: &SenseSample, raw: bool) -> (r: u8)
        ensures
            r == spec_confidence(self.cfg, *s, raw),
    {
        if !raw {
            return 5;
        }
        let mut c: u8 = 40;
        if s.force_deci_n >= self.cfg.force_min_deci_n {
            c = c + 35;
        }
        if self.tof_ok(s.tof_mm) {
            c = c + 20;
        }
        if s.motion {
            c = c + 5;
        }
        if c > 100 {
            100
        } else {
            c
        }
    }

    /// Ingest a sample; returns true if debounced `present` flipped.
    pub fn update(&mut self, s: SenseSample) -> (flipped: bool)
        ensures
            final(self).config() == old(self).config(),
            final(self)@ == next_state(old(self).config(), old(self)@, s),
            flipped == (old(self)@.present != final(self)@.present),
    {
        self.last_t_ms = s.t_ms;
        self.last_force_deci_n = s.force_deci_n;
        self.last_tof = s.tof_mm;

        let raw = self.raw_present(&s);
        self.confidence_pct = self.confidence_of(&s, raw);

        if raw != self.raw {
            self.raw = raw;
            self.raw_since_ms = s.t_ms;
        }
        let held: u64 = if s.t_ms >= self.raw_since_ms {
            s.t_ms - self.raw_since_ms
        } else {
            0
        };
        let prev = self.present;

        if !self.present && self.raw && held >= self.cfg.enter_ms {
            self.present = true;
        } else if self.present && !self.raw && held >= self.cfg.exit_ms {
            self.present = false;
        }
        prev != self.present
    }
}

impl Default for PresenceFilter {
    fn default() -> (r: Self)
        ensures
            r.config() == PresenceConfig::spec_default(),
            r@ == PresenceFilter::initial_state(),
    {
        PresenceFilter::new(PresenceConfig::default())
    }
}

/// Debounce laws of one update: presence comes on only after raw presence
/// has held for the enter window, goes off only after raw absence has held
/// for the exit window, and never flips against the raw reading.
pub proof fn lemma_debounce(cfg: PresenceConfig, st: PresenceState, s: SenseSample)
    ensures
        ({
            let n = next_state(cfg, st, s);
            &&& (!st.present && n.present) ==> (n.raw && held_ms(s.t_ms, n.raw_since_ms)
                >= cfg.enter_ms)
            &&& (st.present && !n.present) ==> (!n.raw && held_ms(s.t_ms, n.raw_since_ms)
                >= cfg.exit_ms)
            &&& n.raw == spec_raw_present(cfg, s)
            &&& (n.raw && st.present) ==> n.present
            &&& (!n.raw && !st.present) ==> !n.present
        }),
{
}

/// Cloud-side presence store entry evaluation.
pub fn still_online(last_seen_ms: u64, now_ms: u64, ttl_ms: u64) -> (r: bool)
    ensures
        r == (held_ms(now_ms, last_seen_ms) <= ttl_ms),
{
    let age: u64 = if now_ms >= last_seen_ms {
        now_ms - last_seen_ms
    } else {
        0
    };
    age <= ttl_ms
}

} // verus!
