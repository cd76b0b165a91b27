//! When to refresh after file-system events: events are debounced, refreshes
//! are rate limited, a stream of events still refreshes within a bound, and
//! a reconciliation refresh runs periodically. Times are milliseconds on a
//! monotonic clock.
use vstd::prelude::*;

verus! {

/// Events must settle this long before a refresh.
pub const DEBOUNCE_MS: u64 = 500;

/// Refreshes come at most this often while events arrive.
pub const MIN_REFRESH_INTERVAL_MS: u64 = 1000;

/// A continuous stream of events is refreshed within this long.
pub const MAX_EVENT_LATENCY_MS: u64 = 2000;

/// A refresh runs at least this often, events or not.
pub const RECONCILE_INTERVAL_MS: u64 = 30000;

/// The refresh schedule.
pub struct RefreshSchedule {
    /// When the first event since the last refresh arrived.
    pub pending_since: Option<u64>,
    /// When the latest event arrived.
    pub last_event: Option<u64>,
    /// The paths of the events since the last refresh.
    pub pending_paths: Vec<String>,
    /// When the last refresh ran.
    pub last_refresh: u64,
    /// When the next reconciliation refresh is due.
    pub next_reconcile: u64,
}

/// The time since `earlier`, zero when `earlier` is later.
pub open spec fn elapsed(now: u64, earlier: u64) -> int {
    if now >= earlier {
        now - earlier
    } else {
        0
    }
}

/// Whether a refresh is due: the reconciliation time has come; or events are
/// pending, the last refresh is at least the minimum interval ago, and either
/// the events have settled for the debounce time or the first of them is the
/// maximum latency old.
pub open spec fn refresh_due(s: RefreshSchedule, now: u64) -> bool {
    if now >= s.next_reconcile {
        true
    } else {
        match (s.pending_since, s.last_event) {
            (Some(since), Some(last)) => elapsed(now, s.last_refresh) >= MIN_REFRESH_INTERVAL_MS && (
            elapsed(now, last) >= DEBOUNCE_MS || elapsed(now, since) >= MAX_EVENT_LATENCY_MS),
            _ => false,
        }
    }
}

fn since(now: u64, earlier: u64) -> (r: u64)
    ensures
        r == elapsed(now, earlier),
{
    if now >= earlier {
        now - earlier
    } else {
        0
    }
}

impl RefreshSchedule {
    /// A schedule that has just refreshed at `now`.
    pub fn new(now: u64) -> (r: Self)
        requires
            now + RECONCILE_INTERVAL_MS <= u64::MAX,
        ensures
            r.pending_since is None,
            r.last_event is None,
            r.pending_paths@.len() == 0,
            r.last_refresh == now,
            r.next_reconcile == now + RECONCILE_INTERVAL_MS,
    {
        RefreshSchedule {
            pending_since: None,
            last_event: None,
            pending_paths: Vec::new(),
            last_refresh: now,
            next_reconcile: now + RECONCILE_INTERVAL_MS,
        }
    }

    /// Notes an event at `now` that touched `paths`.
    pub fn note_event(&mut self, now: u64, paths: Vec<String>)
        ensures
            final(self).pending_since == (match old(self).pending_since {
                Some(t) => Some(t),
                None => Some(now),
            }),
            final(self).last_event == Some(now),
            final(self).pending_paths@ == old(self).pending_paths@ + paths@,
            final(self).last_refresh == old(self).last_refresh,
            final(self).next_reconcile == old(self).next_reconcile,
    {
        if self.pending_since.is_none() {
            self.pending_since = Some(now);
        }
        self.last_event = Some(now);
        let mut more = paths;
        self.pending_paths.append(&mut more);
    }

    /// Whether a refresh is due at `now`.
    pub fn should_refresh(&self, now: u64) -> (r: bool)
        ensures
            r == refresh_due(*self, now),
    {
        if now >= self.next_reconcile {
            return true;
        }
        match (self.pending_since, self.last_event) {
            (Some(pending_since), Some(last_event)) => {
                let rate_limit_elapsed = since(now, self.last_refresh) >= MIN_REFRESH_INTERVAL_MS;
                let burst_settled = since(now, last_event) >= DEBOUNCE_MS;
                let max_latency_elapsed = since(now, pending_since) >= MAX_EVENT_LATENCY_MS;
                rate_limit_elapsed && (burst_settled || max_latency_elapsed)
            },
            _ => false,
        }
    }

    /// Records a refresh at `now`: nothing is pending, and the next
    /// reconciliation is a full interval away.
    pub fn mark_refreshed(&mut self, now: u64)
        requires
            now + RECONCILE_INTERVAL_MS <= u64::MAX,
        ensures
            final(self).pending_since is None,
            final(self).last_event is None,
            final(self).pending_paths@.len() == 0,
            final(self).last_refresh == now,
            final(self).next_reconcile == now + RECONCILE_INTERVAL_MS,
    {
        self.pending_since = None;
        self.last_event = None;
        self.pending_paths.clear();
        self.last_refresh = now;
        self.next_reconcile = now + RECONCILE_INTERVAL_MS;
    }
}

/// The timing promises of the schedule: the reconciliation refresh always
/// runs when due; without pending events nothing else refreshes; no refresh
/// comes sooner than the minimum interval after the last, nor while events
/// are still arriving within the debounce time and the first pending event
/// is younger than the maximum latency; and a pending event is refreshed
/// once it has settled, or once the first pending event is the maximum
/// latency old, as soon as the rate limit allows.
pub proof fn lemma_refresh_timing(s: RefreshSchedule, now: u64)
    ensures
        now >= s.next_reconcile ==> refresh_due(s, now),
        now < s.next_reconcile && (s.pending_since is None || s.last_event is None) ==> !refresh_due(
            s,
            now,
        ),
        now < s.next_reconcile && now >= s.last_refresh && now - s.last_refresh
            < MIN_REFRESH_INTERVAL_MS ==> !refresh_due(s, now),
        forall|since: u64, last: u64|
            now < s.next_reconcile && s.pending_since == Some(since) && s.last_event == Some(last)
                && now >= last && now - last < DEBOUNCE_MS && now >= since && now - since
                < MAX_EVENT_LATENCY_MS ==> !refresh_due(s, now),
        forall|since: u64, last: u64|
            s.pending_since == Some(since) && s.last_event == Some(last) && now >= s.last_refresh
                + MIN_REFRESH_INTERVAL_MS && (now >= last + DEBOUNCE_MS || now >= since
                + MAX_EVENT_LATENCY_MS) ==> refresh_due(s, now),
{
}

} // verus!
