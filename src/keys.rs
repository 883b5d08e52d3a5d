//! Freshness of the held signing-key set: when a refresh is due, and whether
//! the keys may still be used to grant access.
use vstd::prelude::*;

verus! {

/// Fallback bound, in milliseconds, on how long a loaded key set is used when
/// its fetch carried no expiry directive (five minutes).
pub const MAX_KEY_VALIDITY_MS: u64 = 300_000;

/// The refresh-interval multiplier, in thousandths, that means "use the
/// fallback window as it is".
pub const UNIT_REFRESH_INTERVAL: u64 = 1000;

/// What the held key set says about its freshness at one moment. Times are
/// milliseconds since the Unix epoch.
#[derive(PartialEq, Eq, Structural, Clone, Copy, Debug)]
pub struct KeySetStatus {
    /// When the keys were last fetched; `None` before any load.
    pub last_load_ms: Option<u64>,
    /// The answer of the last fetch's freshness directive, if it carried one.
    pub refresh_due: Option<bool>,
    /// The answer of the last fetch's expiry directive, if it carried one.
    pub expired: Option<bool>,
    /// The key set's refresh-interval multiplier, in thousandths.
    pub refresh_interval_milli: u64,
}

/// The fallback refresh window: the maximum validity scaled by the multiplier.
pub open spec fn refresh_window_ms(refresh_interval_milli: u64) -> int {
    MAX_KEY_VALIDITY_MS * refresh_interval_milli / 1000
}

/// Whether a refresh is due at `now_ms`.
pub open spec fn refresh_due_at(s: KeySetStatus, now_ms: u64) -> bool {
    match s.last_load_ms {
        None => true,
        Some(t) => match s.refresh_due {
            Some(due) => due,
            None => now_ms > t + refresh_window_ms(s.refresh_interval_milli),
        },
    }
}

/// Whether the keys may be used at `now_ms`. The fallback ceiling does not
/// scale with the refresh-interval multiplier.
pub open spec fn valid_at(s: KeySetStatus, now_ms: u64) -> bool {
    match s.last_load_ms {
        None => false,
        Some(t) => match s.expired {
            Some(e) => !e,
            None => now_ms <= t + MAX_KEY_VALIDITY_MS,
        },
    }
}

impl KeySetStatus {
    /// The status of a key set that was never loaded.
    pub fn unloaded() -> (r: Self)
        ensures
            r.last_load_ms.is_none(),
            r.refresh_due.is_none(),
            r.expired.is_none(),
            r.refresh_interval_milli == UNIT_REFRESH_INTERVAL,
    {
        KeySetStatus {
            last_load_ms: None,
            refresh_due: None,
            expired: None,
            refresh_interval_milli: UNIT_REFRESH_INTERVAL,
        }
    }

    /// Whether the keys should be refreshed at `now_ms`: always before the
    /// first load; afterwards as the freshness directive says, or, without
    /// one, once the scaled fallback window since the last load has passed.
    pub fn should_refresh(&self, now_ms: u64) -> (r: bool)
        ensures
            r == refresh_due_at(*self, now_ms),
    {
        match self.last_load_ms {
            None => true,
            Some(t) => match self.refresh_due {
                Some(due) => due,
                None => {
                    let m = self.refresh_interval_milli as u128;
                    assert(300_000 * m <= 300_000 * 0xffff_ffff_ffff_ffffu128) by (nonlinear_arith)
                        requires m <= 0xffff_ffff_ffff_ffffu128;
                    let window: u128 = (MAX_KEY_VALIDITY_MS as u128) * m / 1000;
                    (now_ms as u128) > (t as u128) + window
                },
            },
        }
    }

    /// Whether the keys may still be used at `now_ms`: never before the
    /// first load; afterwards unless the expiry directive says they expired,
    /// or, without one, until the fixed maximum validity has passed.
    pub fn still_valid(&self, now_ms: u64) -> (r: bool)
        ensures
            r == valid_at(*self, now_ms),
    {
        match self.last_load_ms {
            None => false,
            Some(t) => match self.expired {
                Some(e) => !e,
                None => (now_ms as u128) <= (t as u128) + (MAX_KEY_VALIDITY_MS as u128),
            },
        }
    }
}

/// Before any load a refresh is due and the keys are not valid, at every moment;
/// after a load whose freshness directive reports no freshness left, a refresh is due.
pub proof fn lemma_unloaded_and_stale(s: KeySetStatus, now_ms: u64)
    ensures
        s.last_load_ms.is_none() ==> refresh_due_at(s, now_ms) && !valid_at(s, now_ms),
        s.refresh_due == Some(true) ==> refresh_due_at(s, now_ms),
{
}

/// Without an expiry directive, keys are invalid from the moment the maximum
/// validity after the last load has passed, however far the refresh-interval
/// multiplier stretches the refresh window.
pub proof fn lemma_validity_ceiling(s: KeySetStatus, now_ms: u64)
    requires
        s.expired.is_none(),
        s.last_load_ms.is_some(),
        now_ms > s.last_load_ms.unwrap() + MAX_KEY_VALIDITY_MS,
    ensures
        !valid_at(s, now_ms),
        s.refresh_interval_milli > UNIT_REFRESH_INTERVAL && s.refresh_due.is_none()
            ==> refresh_window_ms(s.refresh_interval_milli) > MAX_KEY_VALIDITY_MS,
{
    if s.refresh_interval_milli > UNIT_REFRESH_INTERVAL {
        assert(MAX_KEY_VALIDITY_MS * s.refresh_interval_milli / 1000 > MAX_KEY_VALIDITY_MS) by (nonlinear_arith)
            requires s.refresh_interval_milli > 1000;
    }
}

} // verus!
