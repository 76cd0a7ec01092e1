//! Welfare / social policy rules (architecture: rules as code).
//!
//! Humans never appear in the accept path. A steward may set flags consumed
//! here. Times are milliseconds since the Unix epoch.
use crate::protocol::DogId;
use vstd::prelude::*;
use vstd::string::StringExecFns;

verus! {

/// Per-dog policy snapshot (also embedded in the terminal config).
#[derive(Debug, Clone)]
pub struct DogPolicy {
    pub dog_id: DogId,
    /// IANA timezone name (evaluated as the fixed offset below).
    pub timezone: String,
    /// Minutes from local midnight for sleep start (inclusive).
    pub sleep_start_min: u16,
    /// Minutes from local midnight for sleep end (exclusive). Wrap-aware.
    pub sleep_end_min: u16,
    /// Fixed offset minutes east of UTC (e.g. -480 for PST).
    pub utc_offset_min: i16,
    pub emergency_stop: bool,
    pub social_disabled: bool,
    /// Max invites per rolling hour.
    pub max_invites_per_hour: u32,
    pub max_session_sec: u64,
    pub segment_sec: u64,
}

/// The minute of the local day (0..1440) at time `now_ms` under a fixed
/// offset of `offset_min` minutes east of UTC; an offset of a whole day or
/// more counts as UTC.
pub open spec fn local_minutes(now_ms: i64, offset_min: i16) -> int {
    let off: int = if -1440 < offset_min < 1440 {
        offset_min as int
    } else {
        0
    };
    ((now_ms + off * 60000) / 60000) % 1440
}

/// Whether `m` lies in the sleep window `[start, end)`, which wraps past
/// midnight when `start > end` and is empty when `start == end`.
pub open spec fn in_window(m: int, start: u16, end: u16) -> bool {
    if start == end {
        false
    } else if start < end {
        start <= m < end
    } else {
        m >= start || m < end
    }
}

impl DogPolicy {
    /// Whether the dog is in its sleep window at `now_ms`.
    pub open spec fn spec_in_sleep(&self, now_ms: i64) -> bool {
        in_window(local_minutes(now_ms, self.utc_offset_min), self.sleep_start_min, self.sleep_end_min)
    }

    /// Whether `p` holds the defaults for `dog_id`: UTC, sleep 22:00-07:00,
    /// no flags, 12 invites an hour, 15 min sessions, 5 min segments.
    pub open spec fn is_default_for(p: DogPolicy, dog_id: DogId) -> bool {
        &&& p.dog_id == dog_id
        &&& p.timezone@ == "UTC"@
        &&& p.sleep_start_min == 22 * 60
        &&& p.sleep_end_min == 7 * 60
        &&& p.utc_offset_min == 0
        &&& !p.emergency_stop
        &&& !p.social_disabled
        &&& p.max_invites_per_hour == 12
        &&& p.max_session_sec == 15 * 60
        &&& p.segment_sec == 5 * 60
    }

    pub fn default_for(dog_id: DogId) -> (r: Self)
        ensures
            Self::is_default_for(r, dog_id),
    {
        DogPolicy {
            dog_id,
            timezone: String::from_str("UTC"),
            sleep_start_min: 22 * 60,
            sleep_end_min: 7 * 60,
            utc_offset_min: 0,
            emergency_stop: false,
            social_disabled: false,
            max_invites_per_hour: 12,
            max_session_sec: 15 * 60,
            segment_sec: 5 * 60,
        }
    }

    /// A copy of this policy.
    pub fn duplicate(&self) -> (r: Self)
        ensures
            r == *self,
    {
        DogPolicy {
            dog_id: self.dog_id,
            timezone: self.timezone.clone(),
            sleep_start_min: self.sleep_start_min,
            sleep_end_min: self.sleep_end_min,
            utc_offset_min: self.utc_offset_min,
            emergency_stop: self.emergency_stop,
            social_disabled: self.social_disabled,
            max_invites_per_hour: self.max_invites_per_hour,
            max_session_sec: self.max_session_sec,
            segment_sec: self.segment_sec,
        }
    }

    /// The minute of the local day at `now_ms`.
    pub fn local_minutes_now(&self, now_ms: i64) -> (r: u16)
        ensures
            r as int == local_minutes(now_ms, self.utc_offset_min),
    {
        let off: i128 = if -1440 < self.utc_offset_min && self.utc_offset_min < 1440 {
            self.utc_offset_min as i128
        } else {
            0
        };
        let local: i128 = now_ms as i128 + off * 60000;
        let minute: i128 = floor_div(local, 60000);
        let m: i128 = floor_mod(minute, 1440);
        m as u16
    }

    pub fn in_sleep(&self, now_ms: i64) -> (r: bool)
        ensures
            r == self.spec_in_sleep(now_ms),
    {
        let m: u16 = self.local_minutes_now(now_ms);
        if self.sleep_start_min == self.sleep_end_min {
            return false;
        }
        if self.sleep_start_min < self.sleep_end_min {
            m >= self.sleep_start_min && m < self.sleep_end_min
        } else {
            m >= self.sleep_start_min || m < self.sleep_end_min
        }
    }
}

/// Floor division by a positive divisor.
fn floor_div(x: i128, d: i128) -> (r: i128)
    requires
        0 < d < 1_000_000,
        -0x1000_0000_0000_0000_0000_0000 < x < 0x1000_0000_0000_0000_0000_0000,
    ensures
        r as int == x as int / d as int,
{
    if x >= 0 {
        x / d
    } else {
        let q: i128 = (-x - 1) / d;
        proof {
            let a = (-x - 1) as int;
            let di = d as int;
            assert(a == di * (a / di) + a % di) by (nonlinear_arith)
                requires
                    di > 0,
                    a >= 0,
            ;
            let q0 = a / di;
            let r0 = a % di;
            assert(x as int == di * (-q0 - 1) + (di - 1 - r0)) by (nonlinear_arith)
                requires
                    a == di * q0 + r0,
                    x as int == -a - 1,
            ;
            assert(0 <= r0 < di) by {
                vstd::arithmetic::div_mod::lemma_mod_bound(a, di);
            }
            vstd::arithmetic::div_mod::lemma_fundamental_div_mod_converse(
                x as int,
                di,
                -(a / di) - 1,
                di - 1 - a % di,
            );
        }
        -q - 1
    }
}

/// Non-negative remainder by a positive divisor.
fn floor_mod(x: i128, d: i128) -> (r: i128)
    requires
        0 < d < 1_000_000,
        -0x1000_0000_0000_0000_0000_0000 < x < 0x1000_0000_0000_0000_0000_0000,
    ensures
        r as int == x as int % d as int,
        0 <= r < d,
{
    let q: i128 = floor_div(x, d);
    proof {
        vstd::arithmetic::div_mod::lemma_fundamental_div_mod(x as int, d as int);
        assert(0 <= (x as int) % (d as int) < d as int);
        assert((q as int) * (d as int) == (d as int) * (q as int)) by (nonlinear_arith);
    }
    assert(q * d >= -0x1000_0000_0000_0000_0000_0000 - 1_000_000);
    x - q * d
}

/// Why social contact is refused.
#[derive(Debug, Clone, Copy, PartialEq, Eq, Structural)]
pub enum PolicyDeny {
    EmergencyStop,
    SocialDisabled,
    Sleep,
    RateLimit,
}

impl PolicyDeny {
    /// The message text of an error, as characters.
    pub open spec fn text(self) -> Seq<char> {
        match self {
            PolicyDeny::EmergencyStop => "emergency_stop active"@,
            PolicyDeny::SocialDisabled => "social_disabled"@,
            PolicyDeny::Sleep => "sleep window"@,
            PolicyDeny::RateLimit => "invite rate limit"@,
        }
    }

    /// The message text of a refusal.
    pub fn message(&self) -> (r: &'static str)
        ensures
            r@ == self.text(),
    {
        match self {
            PolicyDeny::EmergencyStop => "emergency_stop active",
            PolicyDeny::SocialDisabled => "social_disabled",
            PolicyDeny::Sleep => "sleep window",
            PolicyDeny::RateLimit => "invite rate limit",
        }
    }
}

/// The outcome of the social check: the first flag that refuses, in the
/// order emergency stop, social disabled, sleep window.
pub open spec fn spec_social_allowed(p: DogPolicy, now_ms: i64) -> Result<(), PolicyDeny> {
    if p.emergency_stop {
        Err(PolicyDeny::EmergencyStop)
    } else if p.social_disabled {
        Err(PolicyDeny::SocialDisabled)
    } else if p.spec_in_sleep(now_ms) {
        Err(PolicyDeny::Sleep)
    } else {
        Ok(())
    }
}

/// Can this dog initiate or accept social contact right now?
pub fn social_allowed(p: &DogPolicy, now_ms: i64) -> (r: Result<(), PolicyDeny>)
    ensures
        r == spec_social_allowed(*p, now_ms),
{
    if p.emergency_stop {
        return Err(PolicyDeny::EmergencyStop);
    }
    if p.social_disabled {
        return Err(PolicyDeny::SocialDisabled);
    }
    if p.in_sleep(now_ms) {
        return Err(PolicyDeny::Sleep);
    }
    Ok(())
}

pub fn invite_rate_ok(sent_in_window: u32, max_per_hour: u32) -> (r: Result<(), PolicyDeny>)
    ensures
        r == (if sent_in_window >= max_per_hour {
            Err(PolicyDeny::RateLimit)
        } else {
            Ok(())
        }),
{
    if sent_in_window >= max_per_hour {
        Err(PolicyDeny::RateLimit)
    } else {
        Ok(())
    }
}

/// Whole seconds in `d_ms` milliseconds, truncated toward zero.
pub open spec fn whole_seconds(d_ms: int) -> int {
    if d_ms >= 0 {
        d_ms / 1000
    } else {
        -((-d_ms) / 1000)
    }
}

/// The value of an integer cast to `u64` (two's complement wrap for
/// negative values of `i64` range).
pub open spec fn wrap_u64(x: int) -> int {
    if x >= 0 {
        x
    } else {
        x + 0x1_0000_0000_0000_0000
    }
}

/// The value of a `u64` cast to `i64`.
pub open spec fn wrap_i64(x: u64) -> int {
    if x <= i64::MAX {
        x as int
    } else {
        x - 0x1_0000_0000_0000_0000
    }
}

/// Whether the whole seconds since `started_ms`, cast to `u64`, reach
/// `max_sec` (a start in the future wraps to a huge count).
pub fn session_past_max(started_ms: i64, max_sec: u64, now_ms: i64) -> (r: bool)
    ensures
        r == (wrap_u64(whole_seconds(now_ms - started_ms)) >= max_sec),
{
    let d: i128 = now_ms as i128 - started_ms as i128;
    let secs: i128 = if d >= 0 {
        d / 1000
    } else {
        -((-d) / 1000)
    };
    if secs >= 0 {
        secs as u64 >= max_sec
    } else {
        let u: u128 = (secs + 0x1_0000_0000_0000_0000) as u128;
        u >= max_sec as u128
    }
}

pub fn session_past_segment(deadline_ms: i64, now_ms: i64) -> (r: bool)
    ensures
        r == (now_ms >= deadline_ms),
{
    now_ms >= deadline_ms
}

/// Extend the soft segment by `segment_sec` from `now_ms`, never past
/// `max_end_ms`. The seconds are taken as an `i64` (a value above
/// `i64::MAX` wraps negative).
pub fn extend_segment(now_ms: i64, segment_sec: u64, max_end_ms: i64) -> (r: i64)
    requires
        -(i64::MAX / 1000) <= wrap_i64(segment_sec) <= i64::MAX / 1000,
        i64::MIN <= now_ms + wrap_i64(segment_sec) * 1000 <= i64::MAX,
    ensures
        r == (if now_ms + wrap_i64(segment_sec) * 1000 > max_end_ms {
            max_end_ms as int
        } else {
            now_ms + wrap_i64(segment_sec) * 1000
        }),
{
    let secs: i64 = if segment_sec <= i64::MAX as u64 {
        segment_sec as i64
    } else {
        (segment_sec as i128 - 0x1_0000_0000_0000_0000) as i64
    };
    let next: i64 = now_ms + secs * 1000;
    if next > max_end_ms {
        max_end_ms
    } else {
        next
    }
}

/// Minutes from `from` forward to `to` on a 24-hour clock.
pub open spec fn minutes_ahead(from: int, to: int) -> int {
    (to - from + 1440) % 1440
}

/// The sleep window is the stretch of the clock that starts at `start` and
/// runs forward to `end`, across midnight when it must: a minute of the day
/// is in it exactly when it comes less far after `start` than `end` does.
/// So in a window that wraps (`start > end`) every minute before `end` and
/// every minute from `start` on is asleep.
pub proof fn lemma_sleep_window_is_clock_arc(m: int, start: u16, end: u16)
    requires
        0 <= m < 1440,
        start < 1440,
        end < 1440,
    ensures
        in_window(m, start, end) == (minutes_ahead(start as int, m) < minutes_ahead(
            start as int,
            end as int,
        )),
        start > end && m < end ==> in_window(m, start, end),
        start > end && m >= start ==> in_window(m, start, end),
        start < end ==> in_window(m, start, end) == (start <= m < end),
        start == end ==> !in_window(m, start, end),
{
    let s = start as int;
    let e = end as int;
    if m >= s {
        assert((m - s + 1440) % 1440 == m - s) by (nonlinear_arith)
            requires
                0 <= m - s < 1440,
        ;
    } else {
        assert((m - s + 1440) % 1440 == m - s + 1440) by (nonlinear_arith)
            requires
                0 < m - s + 1440 < 1440,
        ;
    }
    if e >= s {
        assert((e - s + 1440) % 1440 == e - s) by (nonlinear_arith)
            requires
                0 <= e - s < 1440,
        ;
    } else {
        assert((e - s + 1440) % 1440 == e - s + 1440) by (nonlinear_arith)
            requires
                0 < e - s + 1440 < 1440,
        ;
    }
}

/// The dog sleeps at `now_ms` exactly when its local minute of the day lies
/// on the clock arc from the window's start forward to its end.
pub proof fn lemma_in_sleep_is_clock_arc(p: DogPolicy, now_ms: i64)
    requires
        p.sleep_start_min < 1440,
        p.sleep_end_min < 1440,
    ensures
        0 <= local_minutes(now_ms, p.utc_offset_min) < 1440,
        p.spec_in_sleep(now_ms) == (minutes_ahead(
            p.sleep_start_min as int,
            local_minutes(now_ms, p.utc_offset_min),
        ) < minutes_ahead(p.sleep_start_min as int, p.sleep_end_min as int)),
{
    let m = local_minutes(now_ms, p.utc_offset_min);
    let off: int = if -1440 < p.utc_offset_min < 1440 {
        p.utc_offset_min as int
    } else {
        0
    };
    let q = (now_ms + off * 60000) / 60000;
    assert(0 <= q % 1440 < 1440) by (nonlinear_arith);
    lemma_sleep_window_is_clock_arc(m, p.sleep_start_min, p.sleep_end_min);
}

/// A dog in its sleep window may not have social contact (unless an
/// emergency stop or social-disable refuses it first), and one outside it
/// with no flag set may.
pub proof fn lemma_sleep_denies_social(p: DogPolicy, now_ms: i64)
    requires
        !p.emergency_stop,
        !p.social_disabled,
    ensures
        p.spec_in_sleep(now_ms) ==> spec_social_allowed(p, now_ms) == Err::<(), PolicyDeny>(PolicyDeny::Sleep),
        !p.spec_in_sleep(now_ms) ==> spec_social_allowed(p, now_ms) == Ok::<(), PolicyDeny>(()),
{
}

/// Extending a segment never passes the session's hard end, and never
/// moves the deadline before `now` while the hard end is still ahead.
pub proof fn lemma_extend_segment_bounded(now_ms: i64, segment_sec: u64, max_end_ms: i64)
    requires
        segment_sec <= i64::MAX / 1000,
        now_ms <= max_end_ms,
    ensures
        ({
            let next = now_ms + wrap_i64(segment_sec) * 1000;
            let r = if next > max_end_ms {
                max_end_ms as int
            } else {
                next
            };
            r <= max_end_ms && r >= now_ms
        }),
{
}

} // verus!
