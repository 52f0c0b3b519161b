//! Registrations that failed, and when they are tried again.
use vstd::prelude::*;

use crate::clock::instant_now;
use crate::clock::nanos_since;
use crate::keyed;
use crate::keyed::Keyed;
use crate::messages::LightnodeRegistrationMessage;
use crate::search;
use crate::text::same_text;

verus! {

/// How registrations are tried again.
#[derive(Debug, Clone)]
pub struct RetryConfig {
    /// How often a registration may fail.
    pub max_retries: u32,
    /// How long to wait before each attempt, in milliseconds.
    pub retry_intervals_ms: Vec<u64>,
    /// Whether to wait less in peak traffic.
    pub retry_on_peak: bool,
    /// When a failed registration is given up, in seconds.
    pub max_failure_age_secs: u64,
}

impl Default for RetryConfig {
    fn default() -> (r: Self)
        ensures
            r.max_retries == 3,
            r.retry_intervals_ms@ == seq![500u64, 1000, 2000],
            r.retry_on_peak,
            r.max_failure_age_secs == 300,
    {
        RetryConfig {
            max_retries: 3,
            retry_intervals_ms: vec![500, 1000, 2000],
            retry_on_peak: true,
            max_failure_age_secs: 300,
        }
    }
}

/// A registration that failed. Times are in nanoseconds since the manager was made.
#[derive(Debug)]
pub struct FailedRegistration {
    pub registration: LightnodeRegistrationMessage,
    pub retry_count: u32,
    pub last_failure: u64,
    pub failure_reason: String,
    pub peer_id: String,
}

impl Keyed for FailedRegistration {
    type Query = str;

    open spec fn key(&self) -> Seq<char> {
        self.peer_id@
    }

    fn has_key(&self, query: &str) -> (r: bool) {
        same_text(self.peer_id.as_str(), query)
    }
}

/// What was counted. The average number of attempts is `pending_attempts` over `total_failures`.
#[derive(Debug, Clone, Copy)]
pub struct RetryStats {
    pub total_failures: u64,
    pub successful_retries: u64,
    pub abandoned_registrations: u64,
    pub pending_attempts: u32,
    pub pending_retries: usize,
}

/// Nothing counted.
pub open spec fn no_retries() -> RetryStats {
    RetryStats {
        total_failures: 0,
        successful_retries: 0,
        abandoned_registrations: 0,
        pending_attempts: 0,
        pending_retries: 0,
    }
}

impl Default for RetryStats {
    fn default() -> (r: Self)
        ensures
            r == no_retries(),
    {
        RetryStats {
            total_failures: 0,
            successful_retries: 0,
            abandoned_registrations: 0,
            pending_attempts: 0,
            pending_retries: 0,
        }
    }
}

/// Nanoseconds in a millisecond.
pub const NANOS_PER_MILLI: u64 = 1_000_000;

/// Nanoseconds in a second.
pub const NANOS_PER_SECOND: u64 = 1_000_000_000;

/// What is waited where no interval is set, in milliseconds.
pub const DEFAULT_RETRY_INTERVAL_MS: u64 = 2000;

/// How long to wait after so many attempts, in milliseconds: the interval of that number, or the
/// last one.
pub open spec fn interval_ms(intervals: Seq<u64>, retry_count: u32) -> u64 {
    if retry_count < intervals.len() {
        intervals[retry_count as int]
    } else if intervals.len() > 0 {
        intervals.last()
    } else {
        DEFAULT_RETRY_INTERVAL_MS
    }
}

/// How long ago something was.
pub open spec fn time_since(now: u64, then: u64) -> int {
    if now >= then {
        now - then
    } else {
        0
    }
}

/// Whether a registration is to be tried again. The first attempt is due at once.
pub open spec fn due(intervals: Seq<u64>, now: u64) -> spec_fn(FailedRegistration) -> bool {
    |e: FailedRegistration|
        e.retry_count == 0 || time_since(now, e.last_failure) >= interval_ms(
            intervals,
            e.retry_count,
        ) * NANOS_PER_MILLI
}

/// Whether a registration failed too long ago.
pub open spec fn too_old(max_age_secs: u64, now: u64) -> spec_fn(FailedRegistration) -> bool {
    |e: FailedRegistration| time_since(now, e.last_failure) / NANOS_PER_SECOND as int > max_age_secs
}

/// Whether a registration is not to be tried again yet.
pub open spec fn not_due(intervals: Seq<u64>, now: u64) -> spec_fn(FailedRegistration) -> bool {
    |e: FailedRegistration| !due(intervals, now)(e)
}

/// Whether a registration is to be tried again and is not too old.
pub open spec fn ready(
    intervals: Seq<u64>,
    max_age_secs: u64,
    now: u64,
) -> spec_fn(FailedRegistration) -> bool {
    |e: FailedRegistration| due(intervals, now)(e) && !too_old(max_age_secs, now)(e)
}

/// Whether a registration is to be tried again but is too old.
pub open spec fn late(
    intervals: Seq<u64>,
    max_age_secs: u64,
    now: u64,
) -> spec_fn(FailedRegistration) -> bool {
    |e: FailedRegistration| due(intervals, now)(e) && too_old(max_age_secs, now)(e)
}

/// Whether a registration is not too old.
pub open spec fn young(max_age_secs: u64, now: u64) -> spec_fn(FailedRegistration) -> bool {
    |e: FailedRegistration| !too_old(max_age_secs, now)(e)
}

/// What is handed out of a failed registration.
pub open spec fn retry_of() -> spec_fn(FailedRegistration) -> (
    String,
    LightnodeRegistrationMessage,
) {
    |e: FailedRegistration| (e.peer_id, e.registration)
}

/// A registration that has failed once more.
pub open spec fn failed_again(e: FailedRegistration, reason: String, now: u64) -> FailedRegistration {
    FailedRegistration {
        retry_count: (e.retry_count + 1) as u32,
        last_failure: now,
        failure_reason: reason,
        ..e
    }
}

/// How often the registrations were tried, together.
pub open spec fn attempts(s: Seq<FailedRegistration>) -> nat
    decreases s.len(),
{
    if s.len() == 0 {
        0
    } else {
        attempts(s.drop_last()) + s.last().retry_count as nat
    }
}

proof fn attempts_grow(s: Seq<FailedRegistration>, n: int)
    requires
        0 <= n <= s.len(),
    ensures
        attempts(s.take(n)) <= attempts(s),
    decreases s.len(),
{
    if n < s.len() {
        assert(s.drop_last().take(n) =~= s.take(n));
        attempts_grow(s.drop_last(), n);
    } else {
        assert(s.take(n) =~= s);
    }
}

fn is_young(e: &FailedRegistration, max_age_secs: u64, now: u64) -> (r: bool)
    ensures
        r == young(max_age_secs, now)(*e),
{
    let secs: u64 = now.saturating_sub(e.last_failure) / NANOS_PER_SECOND;
    secs <= max_age_secs
}

/// Whether two registrations say the same.
pub open spec fn same_registration(
    a: LightnodeRegistrationMessage,
    b: LightnodeRegistrationMessage,
) -> bool {
    &&& a.node_id@ == b.node_id@
    &&& a.peer_id@ == b.peer_id@
    &&& a.multiaddr@ == b.multiaddr@
    &&& a.geographic_region@ == b.geographic_region@
    &&& a.pou_score_bits == b.pou_score_bits
    &&& a.capabilities@ == b.capabilities@
    &&& a.uptime_percentage_bits == b.uptime_percentage_bits
    &&& a.account == b.account
}

/// Whether two failed registrations are the same.
pub open spec fn same_failure(a: FailedRegistration, b: FailedRegistration) -> bool {
    &&& same_registration(a.registration, b.registration)
    &&& a.retry_count == b.retry_count
    &&& a.last_failure == b.last_failure
    &&& a.failure_reason@ == b.failure_reason@
    &&& a.peer_id@ == b.peer_id@
}

/// Whether `next` are those that were handed out before, and then `more`.
pub open spec fn handed_on(
    next: Seq<FailedRegistration>,
    before: Seq<FailedRegistration>,
    more: Seq<FailedRegistration>,
) -> bool {
    &&& next.len() == before.len() + more.len()
    &&& next.take(before.len() as int) == before
    &&& forall|i: int|
        0 <= i < more.len() ==> same_failure(#[trigger] next[before.len() + i], more[i])
}

/// A peer has at most one failed registration, and none has failed too often.
pub open spec fn in_bounds(s: Seq<FailedRegistration>, max_retries: u32) -> bool {
    &&& keyed::unique_keys(s)
    &&& forall|i: int|
        0 <= i < s.len() ==> (#[trigger] s[i]).retry_count == 0 || s[i].retry_count < max_retries
}

/// Whether no peer is in both.
pub open spec fn apart(a: Seq<FailedRegistration>, b: Seq<FailedRegistration>) -> bool {
    forall|i: int, j: int|
        0 <= i < a.len() && 0 <= j < b.len() ==> (#[trigger] a[i]).peer_id@ != (
        #[trigger] b[j]).peer_id@
}

proof fn filtered_stay_in_bounds(
    s: Seq<FailedRegistration>,
    p: spec_fn(FailedRegistration) -> bool,
    max_retries: u32,
)
    requires
        in_bounds(s, max_retries),
    ensures
        in_bounds(s.filter(p), max_retries),
        forall|i: int| 0 <= i < s.filter(p).len() ==> s.contains(#[trigger] s.filter(p)[i]),
{
    keyed::filter_keeps_unique(s, p);
    let t = s.filter(p);
    assert forall|i: int| 0 <= i < t.len() implies (#[trigger] t[i]).retry_count == 0
        || t[i].retry_count < max_retries by {
        assert(s.contains(t[i]));
    }
}

proof fn filtered_stay_apart(
    a: Seq<FailedRegistration>,
    b: Seq<FailedRegistration>,
    c: Seq<FailedRegistration>,
    d: Seq<FailedRegistration>,
)
    requires
        apart(a, b),
        forall|i: int| 0 <= i < c.len() ==> a.contains(#[trigger] c[i]),
        forall|i: int| 0 <= i < d.len() ==> b.contains(#[trigger] d[i]),
    ensures
        apart(c, d),
{
    assert forall|i: int, j: int| 0 <= i < c.len() && 0 <= j < d.len() implies (
    #[trigger] c[i]).peer_id@ != (#[trigger] d[j]).peer_id@ by {
        assert(a.contains(c[i]) && b.contains(d[j]));
        let x = choose|x: int| 0 <= x < a.len() && a[x] == c[i];
        let y = choose|y: int| 0 <= y < b.len() && b[y] == d[j];
        assert(a[x].peer_id@ != b[y].peer_id@);
    }
}

proof fn handed_on_stay_in_bounds(
    next: Seq<FailedRegistration>,
    before: Seq<FailedRegistration>,
    more: Seq<FailedRegistration>,
    rest: Seq<FailedRegistration>,
    max_retries: u32,
)
    requires
        handed_on(next, before, more),
        in_bounds(before, max_retries),
        in_bounds(more, max_retries),
        apart(more, before),
        apart(rest, before),
        apart(rest, more),
    ensures
        in_bounds(next, max_retries),
        apart(rest, next),
{
    let n = before.len() as int;
    assert forall|i: int| 0 <= i < next.len() implies if i < n {
        #[trigger] next[i] == before[i]
    } else {
        same_failure(next[i], more[i - n])
    } by {
        if i < n {
            assert(next.take(n)[i] == before[i]);
        } else {
            assert(same_failure(next[n + (i - n)], more[i - n]));
        }
    }
    assert forall|a: int, b: int| 0 <= a < b < next.len() implies (#[trigger] next[a]).key() != (
    #[trigger] next[b]).key() by {
        if b < n {
            assert(before[a].key() != before[b].key());
        } else if a < n {
            assert(more[b - n].peer_id@ != before[a].peer_id@);
        } else {
            assert(more[a - n].key() != more[b - n].key());
        }
    }
    assert forall|i: int| 0 <= i < next.len() implies (#[trigger] next[i]).retry_count == 0
        || next[i].retry_count < max_retries by {
        if i < n {
            assert(before[i].retry_count == 0 || before[i].retry_count < max_retries);
        } else {
            assert(more[i - n].retry_count == 0 || more[i - n].retry_count < max_retries);
        }
    }
    assert forall|i: int, j: int| 0 <= i < rest.len() && 0 <= j < next.len() implies (
    #[trigger] rest[i]).peer_id@ != (#[trigger] next[j]).peer_id@ by {
        if j < n {
            assert(rest[i].peer_id@ != before[j].peer_id@);
        } else {
            assert(rest[i].peer_id@ != more[j - n].peer_id@);
        }
    }
}

fn copy_failure(e: &FailedRegistration) -> (r: FailedRegistration)
    ensures
        same_failure(r, *e),
{
    let m = &e.registration;
    let capabilities = m.capabilities.clone();
    assert(capabilities@ =~= m.capabilities@);
    FailedRegistration {
        registration: LightnodeRegistrationMessage {
            node_id: m.node_id.clone(),
            peer_id: m.peer_id.clone(),
            multiaddr: m.multiaddr.clone(),
            geographic_region: m.geographic_region.clone(),
            pou_score_bits: m.pou_score_bits,
            capabilities,
            uptime_percentage_bits: m.uptime_percentage_bits,
            account: m.account,
        },
        retry_count: e.retry_count,
        last_failure: e.last_failure,
        failure_reason: e.failure_reason.clone(),
        peer_id: e.peer_id.clone(),
    }
}

/// The failed registrations, those that were handed out to be tried again, and what was counted.
#[derive(Debug)]
pub struct LocalRetryManager {
    failed_registrations: Vec<FailedRegistration>,
    handed_out: Vec<FailedRegistration>,
    config: RetryConfig,
    stats: RetryStats,
    is_peak_traffic: bool,
    start: std::time::Instant,
}

impl LocalRetryManager {
    /// The failed registrations.
    pub closed spec fn pending(&self) -> Seq<FailedRegistration> {
        self.failed_registrations@
    }

    /// The registrations that were handed out, of which it is not known yet how the attempt went.
    pub closed spec fn handed_out(&self) -> Seq<FailedRegistration> {
        self.handed_out@
    }

    /// How registrations are tried again.
    pub closed spec fn settings(&self) -> RetryConfig {
        self.config
    }

    /// What was counted.
    pub closed spec fn counts(&self) -> RetryStats {
        self.stats
    }

    /// Whether there is peak traffic.
    pub closed spec fn peak(&self) -> bool {
        self.is_peak_traffic
    }

    /// A peer has at most one failed registration, pending or handed out, and none has failed too
    /// often.
    pub open spec fn wf(&self) -> bool {
        &&& in_bounds(self.pending(), self.settings().max_retries)
        &&& in_bounds(self.handed_out(), self.settings().max_retries)
        &&& apart(self.pending(), self.handed_out())
        &&& self.counts().pending_attempts == 0
        &&& self.counts().pending_retries == 0
    }

    /// Whether only the failed registrations and the counts differ.
    pub open spec fn same_settings(&self, other: &Self) -> bool {
        &&& self.settings() == other.settings()
        &&& self.peak() == other.peak()
    }

    /// The pending registration of a peer failed once more: it is given up when it has failed too
    /// often.
    pub open spec fn another_failure(
        &self,
        before: &Self,
        peer_id: Seq<char>,
        reason: String,
        now: u64,
    ) -> bool {
        &&& self.handed_out() == before.handed_out()
        &&& forall|i: int|
            0 <= i < before.pending().len() && (#[trigger] before.pending()[i]).peer_id@ == peer_id
                ==> if before.pending()[i].retry_count + 1 >= before.settings().max_retries {
                &&& self.pending() == before.pending().remove(i)
                &&& self.counts() == RetryStats {
                    abandoned_registrations: (before.counts().abandoned_registrations + 1) as u64,
                    ..before.counts()
                }
            } else {
                &&& self.pending() == before.pending().update(
                    i,
                    failed_again(before.pending()[i], reason, now),
                )
                &&& self.counts() == before.counts()
            }
    }

    /// The attempt with a registration that was handed out failed: it is pending again, unless it
    /// has failed too often.
    pub open spec fn attempt_failed(
        &self,
        before: &Self,
        peer_id: Seq<char>,
        reason: String,
        now: u64,
    ) -> bool {
        &&& self.handed_out() == keyed::without_key(before.handed_out(), peer_id)
        &&& forall|i: int|
            0 <= i < before.handed_out().len() && (#[trigger] before.handed_out()[i]).peer_id@
                == peer_id ==> if before.handed_out()[i].retry_count + 1
                >= before.settings().max_retries {
                &&& self.pending() == before.pending()
                &&& self.counts() == RetryStats {
                    abandoned_registrations: (before.counts().abandoned_registrations + 1) as u64,
                    ..before.counts()
                }
            } else {
                &&& self.pending() == before.pending().push(
                    failed_again(before.handed_out()[i], reason, now),
                )
                &&& self.counts() == before.counts()
            }
    }

    /// The attempt for a peer succeeded: what it had pending or handed out is done with, and the
    /// success counts.
    pub open spec fn attempt_succeeded(&self, before: &Self, peer_id: Seq<char>) -> bool {
        &&& self.same_settings(before)
        &&& self.pending() == keyed::without_key(before.pending(), peer_id)
        &&& self.handed_out() == keyed::without_key(before.handed_out(), peer_id)
        &&& self.counts() == (if keyed::contains_key(before.pending(), peer_id)
            || keyed::contains_key(before.handed_out(), peer_id) {
            RetryStats {
                successful_retries: (before.counts().successful_retries + 1) as u64,
                ..before.counts()
            }
        } else {
            before.counts()
        })
    }

    /// The registration of a peer failed: for the first time, or once more.
    pub open spec fn failure_recorded(
        &self,
        before: &Self,
        peer_id: String,
        registration: LightnodeRegistrationMessage,
        reason: String,
        now: u64,
    ) -> bool {
        &&& self.same_settings(before)
        &&& keyed::contains_key(before.pending(), peer_id@) ==> self.another_failure(
            before,
            peer_id@,
            reason,
            now,
        )
        &&& !keyed::contains_key(before.pending(), peer_id@) ==> self.pending()
            == before.pending().push(
            FailedRegistration {
                registration,
                retry_count: 0,
                last_failure: now,
                failure_reason: reason,
                peer_id,
            },
        ) && self.handed_out() == keyed::without_key(before.handed_out(), peer_id@)
            && self.counts() == RetryStats {
            total_failures: (before.counts().total_failures + 1) as u64,
            ..before.counts()
        }
    }

    /// The attempt for a peer failed; nothing happens where none was pending or handed out.
    pub open spec fn retry_failed(
        &self,
        before: &Self,
        peer_id: Seq<char>,
        reason: String,
        now: u64,
    ) -> bool {
        &&& self.same_settings(before)
        &&& keyed::contains_key(before.pending(), peer_id) ==> self.another_failure(
            before,
            peer_id,
            reason,
            now,
        )
        &&& !keyed::contains_key(before.pending(), peer_id) && keyed::contains_key(
            before.handed_out(),
            peer_id,
        ) ==> self.attempt_failed(before, peer_id, reason, now)
        &&& !keyed::contains_key(before.pending(), peer_id) && !keyed::contains_key(
            before.handed_out(),
            peer_id,
        ) ==> self.pending() == before.pending() && self.handed_out() == before.handed_out()
            && self.counts() == before.counts()
    }

    /// Those that are due were taken out: the young ones are handed out, the old ones given up.
    pub open spec fn retries_taken(
        &self,
        before: &Self,
        taken: Seq<(String, LightnodeRegistrationMessage)>,
        now: u64,
    ) -> bool {
        let intervals = before.settings().retry_intervals_ms@;
        let age = before.settings().max_failure_age_secs;
        &&& self.same_settings(before)
        &&& self.pending() == before.pending().filter(not_due(intervals, now))
        &&& taken == before.pending().filter(ready(intervals, age, now)).map_values(retry_of())
        &&& handed_on(
            self.handed_out(),
            before.handed_out(),
            before.pending().filter(ready(intervals, age, now)),
        )
        &&& self.counts() == RetryStats {
            abandoned_registrations: (before.counts().abandoned_registrations
                + search::count_where(before.pending(), late(intervals, age, now))) as u64,
            ..before.counts()
        }
    }

    /// Those that are too old were given up, and are no longer expected back.
    pub open spec fn cleaned_up(&self, before: &Self, now: u64) -> bool {
        let age = before.settings().max_failure_age_secs;
        &&& self.same_settings(before)
        &&& self.pending() == before.pending().filter(young(age, now))
        &&& self.handed_out() == before.handed_out().filter(young(age, now))
        &&& self.counts() == RetryStats {
            abandoned_registrations: (before.counts().abandoned_registrations
                + search::count_where(before.pending(), too_old(age, now))) as u64,
            ..before.counts()
        }
    }

    /// A manager with the default settings.
    pub fn new() -> (r: Self)
        ensures
            r.wf(),
            r.pending().len() == 0,
            r.handed_out().len() == 0,
            r.counts() == no_retries(),
            !r.peak(),
            r.settings().max_retries == 3,
            r.settings().retry_intervals_ms@ == seq![500u64, 1000, 2000],
            r.settings().retry_on_peak,
            r.settings().max_failure_age_secs == 300,
    {
        Self::with_config(RetryConfig::default())
    }

    /// A manager with these settings.
    pub fn with_config(config: RetryConfig) -> (r: Self)
        ensures
            r.wf(),
            r.pending().len() == 0,
            r.handed_out().len() == 0,
            r.counts() == no_retries(),
            !r.peak(),
            r.settings() == config,
    {
        LocalRetryManager {
            failed_registrations: Vec::new(),
            handed_out: Vec::new(),
            config,
            stats: RetryStats::default(),
            is_peak_traffic: false,
            start: instant_now(),
        }
    }

    fn fail_again(&mut self, index: usize, reason: String, now: u64)
        requires
            old(self).wf(),
            index < old(self).pending().len(),
            old(self).counts().abandoned_registrations < u64::MAX,
        ensures
            final(self).wf(),
            final(self).same_settings(old(self)),
            final(self).another_failure(
                old(self),
                old(self).pending()[index as int].peer_id@,
                reason,
                now,
            ),
    {
        let ghost s = self.failed_registrations@;
        let ghost h = self.handed_out@;
        let count: u32 = self.failed_registrations[index].retry_count;
        assert(s[index as int].retry_count == 0 || s[index as int].retry_count
            < self.config.max_retries);
        if count + 1 >= self.config.max_retries {
            proof {
                keyed::without_is_remove(s, index as int);
                keyed::filter_keeps_unique(
                    s,
                    |e: FailedRegistration| e.key() != s[index as int].key(),
                );
            }
            let _ = self.failed_registrations.remove(index);
            self.stats.abandoned_registrations = self.stats.abandoned_registrations + 1;
            let ghost t = self.failed_registrations@;
            assert forall|i: int| 0 <= i < t.len() implies (#[trigger] t[i]).retry_count == 0
                || t[i].retry_count < self.config.max_retries by {
                if i < index {
                    assert(t[i] == s[i]);
                } else {
                    assert(t[i] == s[i + 1]);
                }
            }
            proof {
                assert forall|i: int| 0 <= i < t.len() implies s.contains(#[trigger] t[i]) by {
                    assert(t[i] == if i < index {
                        s[i]
                    } else {
                        s[i + 1]
                    });
                }
                filtered_stay_apart(s, h, t, h);
            }
        } else {
            let entry = self.failed_registrations.remove(index);
            let again = FailedRegistration {
                registration: entry.registration,
                retry_count: count + 1,
                last_failure: now,
                failure_reason: reason,
                peer_id: entry.peer_id,
            };
            self.failed_registrations.insert(index, again);
            assert(self.failed_registrations@ =~= s.update(index as int, again));
            proof {
                let t = self.failed_registrations@;
                assert forall|i: int, j: int| 0 <= i < t.len() && 0 <= j < h.len() implies (
                #[trigger] t[i]).peer_id@ != (#[trigger] h[j]).peer_id@ by {
                    assert(s[i].peer_id@ == t[i].peer_id@);
                }
            }
        }
    }

    /// Records that the registration of a peer failed, at `now`.
    pub fn register_failure_at(
        &mut self,
        peer_id: String,
        registration: LightnodeRegistrationMessage,
        reason: String,
        now: u64,
    )
        requires
            old(self).wf(),
            old(self).counts().total_failures < u64::MAX,
            old(self).counts().abandoned_registrations < u64::MAX,
        ensures
            final(self).wf(),
            final(self).failure_recorded(old(self), peer_id, registration, reason, now),
    {
        match keyed::find(&self.failed_registrations, peer_id.as_str()) {
            Some(index) => {
                self.fail_again(index, reason, now);
            },
            None => {
                let ghost s = self.failed_registrations@;
                let ghost h = self.handed_out@;
                let ghost peer = peer_id@;
                proof {
                    filtered_stay_in_bounds(
                        h,
                        |e: FailedRegistration| e.key() != peer,
                        self.config.max_retries,
                    );
                    keyed::without_key_keeps_unique(h, peer);
                }
                let _ = keyed::remove(&mut self.handed_out, peer_id.as_str());
                self.failed_registrations.push(
                    FailedRegistration {
                        registration,
                        retry_count: 0,
                        last_failure: now,
                        failure_reason: reason,
                        peer_id,
                    },
                );
                self.stats.total_failures = self.stats.total_failures + 1;
                let ghost t = self.failed_registrations@;
                assert forall|a: int, b: int| 0 <= a < b < t.len() implies (
                #[trigger] t[a]).key() != (#[trigger] t[b]).key() by {
                    assert(t[a] == s[a]);
                    if b < s.len() {
                        assert(t[b] == s[b]);
                    }
                }
                proof {
                    let g = self.handed_out@;
                    filtered_stay_apart(s, h, s, g);
                    assert forall|i: int, j: int| 0 <= i < t.len() && 0 <= j < g.len() implies (
                    #[trigger] t[i]).peer_id@ != (#[trigger] g[j]).peer_id@ by {
                        if i < s.len() {
                            assert(t[i] == s[i]);
                        } else {
                            assert(keyed::without_key(h, peer)[j].key() != peer);
                        }
                    }
                }
            },
        }
    }

    /// Records that the registration of a peer failed.
    pub fn register_failure(
        &mut self,
        peer_id: String,
        registration: LightnodeRegistrationMessage,
        reason: String,
    )
        requires
            old(self).wf(),
            old(self).counts().total_failures < u64::MAX,
            old(self).counts().abandoned_registrations < u64::MAX,
        ensures
            final(self).wf(),
            exists|now: u64|
                #[trigger] final(self).failure_recorded(
                    old(self),
                    peer_id,
                    registration,
                    reason,
                    now,
                ),
    {
        let now: u64 = nanos_since(&self.start);
        self.register_failure_at(peer_id, registration, reason, now);
    }

    /// Takes out the registrations that are due at `now`, and hands out those that are not too
    /// old.
    pub fn get_ready_retries_at(&mut self, now: u64) -> (r: Vec<
        (String, LightnodeRegistrationMessage),
    >)
        requires
            old(self).wf(),
            old(self).counts().abandoned_registrations + old(self).pending().len() <= u64::MAX,
        ensures
            final(self).wf(),
            final(self).retries_taken(old(self), r@, now),
    {
        let ghost intervals = self.config.retry_intervals_ms@;
        let ghost age = self.config.max_failure_age_secs;
        let ghost h = self.handed_out@;
        let mut all: Vec<FailedRegistration> = Vec::new();
        std::mem::swap(&mut self.failed_registrations, &mut all);
        let ghost s = all@;
        let mut taken: Vec<(String, LightnodeRegistrationMessage)> = Vec::new();
        proof {
            reveal(Seq::filter);
            assert(self.failed_registrations@ =~= s.take(0).filter(not_due(intervals, now)));
            assert(s.take(0).filter(ready(intervals, age, now)) =~= Seq::empty());
            assert(taken@ =~= s.take(0).filter(ready(intervals, age, now)).map_values(retry_of()));
            assert(h.take(h.len() as int) =~= h);
        }
        for e in it: all
            invariant
                it.seq() == s,
                s == old(self).pending(),
                h == old(self).handed_out(),
                self.same_settings(old(self)),
                handed_on(
                    self.handed_out@,
                    h,
                    s.take(it.index() as int).filter(ready(intervals, age, now)),
                ),
                intervals == self.config.retry_intervals_ms@,
                age == self.config.max_failure_age_secs,
                old(self).counts().abandoned_registrations + s.len() <= u64::MAX,
                self.failed_registrations@ == s.take(it.index() as int).filter(
                    not_due(intervals, now),
                ),
                taken@ == s.take(it.index() as int).filter(
                    ready(intervals, age, now),
                ).map_values(retry_of()),
                search::count_where(s.take(it.index() as int), late(intervals, age, now))
                    <= it.index(),
                self.stats == (RetryStats {
                    abandoned_registrations: (old(self).counts().abandoned_registrations
                        + search::count_where(
                        s.take(it.index() as int),
                        late(intervals, age, now),
                    )) as u64,
                    ..old(self).counts()
                }),
        {
            let ghost k = it.index() as int;
            let ghost front = s.take(k).filter(ready(intervals, age, now));
            proof {
                assert(s.take(k + 1).drop_last() =~= s.take(k));
                assert(s.take(k + 1).last() == e);
                reveal(Seq::filter);
                search::count_is_bounded(s.take(k), late(intervals, age, now));
                search::count_is_bounded(s.take(k + 1), late(intervals, age, now));
                assert(front.push(e).map_values(retry_of()) =~= front.map_values(retry_of()).push(
                    retry_of()(e),
                ));
            }
            let since: u64 = now.saturating_sub(e.last_failure);
            let wait: u128 = self.get_retry_interval(e.retry_count);
            if e.retry_count == 0 || since as u128 >= wait {
                if is_young(&e, self.config.max_failure_age_secs, now) {
                    let ghost g = self.handed_out@;
                    self.handed_out.push(copy_failure(&e));
                    proof {
                        let next = self.handed_out@;
                        assert(next.take(h.len() as int) =~= g.take(h.len() as int));
                        assert forall|i: int| 0 <= i < front.push(e).len() implies same_failure(
                            #[trigger] next[h.len() + i],
                            front.push(e)[i],
                        ) by {
                            if i < front.len() {
                                assert(next[h.len() + i] == g[h.len() + i]);
                            }
                        }
                    }
                    taken.push((e.peer_id, e.registration));
                } else {
                    self.stats.abandoned_registrations = self.stats.abandoned_registrations + 1;
                }
            } else {
                self.failed_registrations.push(e);
            }
        }
        assert(s.take(s.len() as int) =~= s);
        proof {
            let max = self.config.max_retries;
            let p = ready(intervals, age, now);
            let q = not_due(intervals, now);
            filtered_stay_in_bounds(s, q, max);
            filtered_stay_in_bounds(s, p, max);
            keyed::filter_keeps_unique(s, p);
            keyed::filter_keeps_unique(s, q);
            let t = self.failed_registrations@;
            let out = s.filter(p);
            filtered_stay_apart(s, h, t, h);
            filtered_stay_apart(s, h, out, h);
            assert forall|i: int, j: int| 0 <= i < t.len() && 0 <= j < out.len() implies (
            #[trigger] t[i]).peer_id@ != (#[trigger] out[j]).peer_id@ by {
                assert(q(t[i]) && p(out[j]));
                let a = choose|a: int| 0 <= a < s.len() && s[a] == t[i];
                let b = choose|b: int| 0 <= b < s.len() && s[b] == out[j];
                if s[a].key() == s[b].key() {
                    assert(a == b);
                }
            }
            handed_on_stay_in_bounds(self.handed_out@, h, out, t, max);
        }
        taken
    }

    /// Takes out the registrations that are due, and hands out those that are not too old.
    pub fn get_ready_retries(&mut self) -> (r: Vec<(String, LightnodeRegistrationMessage)>)
        requires
            old(self).wf(),
            old(self).counts().abandoned_registrations + old(self).pending().len() <= u64::MAX,
        ensures
            final(self).wf(),
            exists|now: u64| #[trigger] final(self).retries_taken(old(self), r@, now),
    {
        let now: u64 = nanos_since(&self.start);
        self.get_ready_retries_at(now)
    }

    /// How long to wait after so many attempts, in nanoseconds.
    pub fn get_retry_interval(&self, retry_count: u32) -> (r: u128)
        ensures
            r == interval_ms(self.settings().retry_intervals_ms@, retry_count) * NANOS_PER_MILLI,
    {
        let intervals = &self.config.retry_intervals_ms;
        let ms: u64 = if (retry_count as usize) < intervals.len() {
            intervals[retry_count as usize]
        } else if intervals.len() > 0 {
            intervals[intervals.len() - 1]
        } else {
            DEFAULT_RETRY_INTERVAL_MS
        };
        ms as u128 * NANOS_PER_MILLI as u128
    }

    /// Records that the attempt for a peer succeeded: a registration that was handed out, or is
    /// pending still, counts as a success.
    pub fn mark_retry_success(&mut self, peer_id: &str)
        requires
            old(self).wf(),
            old(self).counts().successful_retries < u64::MAX,
        ensures
            final(self).wf(),
            final(self).attempt_succeeded(old(self), peer_id@),
    {
        let ghost s = self.failed_registrations@;
        let ghost h = self.handed_out@;
        proof {
            let p = |e: FailedRegistration| e.key() != peer_id@;
            filtered_stay_in_bounds(s, p, self.config.max_retries);
            filtered_stay_in_bounds(h, p, self.config.max_retries);
        }
        let was_pending = keyed::remove(&mut self.failed_registrations, peer_id).is_some();
        let was_handed_out = keyed::remove(&mut self.handed_out, peer_id).is_some();
        if was_pending || was_handed_out {
            self.stats.successful_retries = self.stats.successful_retries + 1;
        }
        proof {
            filtered_stay_apart(s, h, self.failed_registrations@, self.handed_out@);
        }
    }

    /// Records that the attempt for a peer failed, at `now`.
    pub fn mark_retry_failed_at(&mut self, peer_id: &str, reason: String, now: u64)
        requires
            old(self).wf(),
            old(self).counts().abandoned_registrations < u64::MAX,
        ensures
            final(self).wf(),
            final(self).retry_failed(old(self), peer_id@, reason, now),
    {
        match keyed::find(&self.failed_registrations, peer_id) {
            Some(index) => {
                self.fail_again(index, reason, now);
            },
            None => {
                self.take_back(peer_id, reason, now);
            },
        }
    }

    fn take_back(&mut self, peer_id: &str, reason: String, now: u64)
        requires
            old(self).wf(),
            !keyed::contains_key(old(self).pending(), peer_id@),
            old(self).counts().abandoned_registrations < u64::MAX,
        ensures
            final(self).wf(),
            final(self).retry_failed(old(self), peer_id@, reason, now),
    {
        let ghost s = self.failed_registrations@;
        let ghost h = self.handed_out@;
        proof {
            filtered_stay_in_bounds(
                h,
                |e: FailedRegistration| e.key() != peer_id@,
                self.config.max_retries,
            );
            keyed::without_key_keeps_unique(h, peer_id@);
            if !keyed::contains_key(h, peer_id@) {
                keyed::without_absent_key(h, peer_id@);
            }
        }
        let entry = match keyed::remove(&mut self.handed_out, peer_id) {
            Some(e) => e,
            None => {
                return ;
            },
        };
        let ghost g = self.handed_out@;
        let ghost k = choose|k: int| 0 <= k < h.len() && h[k] == entry;
        proof {
            filtered_stay_apart(s, h, s, g);
            assert forall|i: int|
                0 <= i < h.len() && (#[trigger] h[i]).peer_id@ == peer_id@ implies h[i]
                == entry by {
                if i != k {
                    assert(h[i].key() != h[k].key());
                }
            }
        }
        let count: u32 = entry.retry_count;
        assert(h[k].retry_count == 0 || h[k].retry_count < self.config.max_retries);
        if count + 1 >= self.config.max_retries {
            self.stats.abandoned_registrations = self.stats.abandoned_registrations + 1;
        } else {
            let again = FailedRegistration {
                registration: entry.registration,
                retry_count: count + 1,
                last_failure: now,
                failure_reason: reason,
                peer_id: entry.peer_id,
            };
            self.failed_registrations.push(again);
            proof {
                let t = self.failed_registrations@;
                assert forall|a: int, b: int| 0 <= a < b < t.len() implies (
                #[trigger] t[a]).key() != (#[trigger] t[b]).key() by {
                    assert(t[a] == s[a]);
                    if b < s.len() {
                        assert(t[b] == s[b]);
                    }
                }
                assert forall|i: int, j: int| 0 <= i < t.len() && 0 <= j < g.len() implies (
                #[trigger] t[i]).peer_id@ != (#[trigger] g[j]).peer_id@ by {
                    if i < s.len() {
                        assert(t[i] == s[i]);
                    } else {
                        assert(keyed::without_key(h, peer_id@)[j].key() != peer_id@);
                    }
                }
            }
        }
    }

    /// Records that the attempt for a peer failed.
    pub fn mark_retry_failed(&mut self, peer_id: &str, reason: String)
        requires
            old(self).wf(),
            old(self).counts().abandoned_registrations < u64::MAX,
        ensures
            final(self).wf(),
            exists|now: u64|
                #[trigger] final(self).retry_failed(old(self), peer_id@, reason, now),
    {
        let now: u64 = nanos_since(&self.start);
        self.mark_retry_failed_at(peer_id, reason, now);
    }

    /// Says whether there is peak traffic.
    pub fn set_peak_traffic(&mut self, is_peak: bool)
        requires
            old(self).wf(),
        ensures
            final(self).wf(),
            final(self).peak() == is_peak,
            final(self).settings() == old(self).settings(),
            final(self).pending() == old(self).pending(),
            final(self).handed_out() == old(self).handed_out(),
            final(self).counts() == old(self).counts(),
    {
        self.is_peak_traffic = is_peak;
    }

    /// Gives up the registrations that are too old at `now`.
    pub fn cleanup_old_failures_at(&mut self, now: u64)
        requires
            old(self).wf(),
            old(self).counts().abandoned_registrations + old(self).pending().len() <= u64::MAX,
        ensures
            final(self).wf(),
            final(self).cleaned_up(old(self), now),
    {
        let age: u64 = self.config.max_failure_age_secs;
        let ghost s = self.failed_registrations@;
        let ghost h = self.handed_out@;
        let is_old = |e: &FailedRegistration| -> (b: bool)
            ensures
                b == too_old(age, now)(*e),
            { !is_young(e, age, now) };
        let old_ones: usize = search::count(
            self.failed_registrations.as_slice(),
            is_old,
            Ghost(too_old(age, now)),
        );
        proof {
            search::count_is_bounded(s, too_old(age, now));
            filtered_stay_in_bounds(s, young(age, now), self.config.max_retries);
            filtered_stay_in_bounds(h, young(age, now), self.config.max_retries);
        }
        let keep = |e: &FailedRegistration| -> (b: bool)
            ensures
                b == young(age, now)(*e),
            { is_young(e, age, now) };
        keyed::retain(&mut self.failed_registrations, keep, Ghost(young(age, now)));
        let keep_out = |e: &FailedRegistration| -> (b: bool)
            ensures
                b == young(age, now)(*e),
            { is_young(e, age, now) };
        keyed::retain(&mut self.handed_out, keep_out, Ghost(young(age, now)));
        self.stats.abandoned_registrations = self.stats.abandoned_registrations + old_ones as u64;
        proof {
            filtered_stay_apart(s, h, self.failed_registrations@, self.handed_out@);
        }
    }

    /// Gives up the registrations that are too old.
    pub fn cleanup_old_failures(&mut self)
        requires
            old(self).wf(),
            old(self).counts().abandoned_registrations + old(self).pending().len() <= u64::MAX,
        ensures
            final(self).wf(),
            exists|now: u64| #[trigger] final(self).cleaned_up(old(self), now),
    {
        let now: u64 = nanos_since(&self.start);
        self.cleanup_old_failures_at(now);
    }

    /// What was counted, with what is pending now.
    pub fn get_stats(&self) -> (r: RetryStats)
        requires
            self.wf(),
            attempts(self.pending()) <= u32::MAX,
        ensures
            r == (RetryStats {
                pending_retries: self.pending().len() as usize,
                pending_attempts: if self.counts().total_failures > 0 {
                    attempts(self.pending()) as u32
                } else {
                    0
                },
                ..self.counts()
            }),
    {
        let mut stats = self.stats;
        stats.pending_retries = self.failed_registrations.len();
        if self.stats.total_failures > 0 {
            let ghost s = self.failed_registrations@;
            let mut total: u32 = 0;
            let mut i: usize = 0;
            while i < self.failed_registrations.len()
                invariant
                    i <= s.len(),
                    s == self.failed_registrations@,
                    attempts(s) <= u32::MAX,
                    total == attempts(s.take(i as int)),
                decreases s.len() - i,
            {
                proof {
                    assert(s.take(i + 1).drop_last() =~= s.take(i as int));
                    attempts_grow(s, i + 1);
                }
                total = total + self.failed_registrations[i].retry_count;
                i += 1;
            }
            assert(s.take(i as int) =~= s);
            stats.pending_attempts = total;
        }
        stats
    }

    /// How long to wait after so many attempts, in nanoseconds; half as long in peak traffic.
    pub fn get_adaptive_retry_interval(&self, retry_count: u32) -> (r: u128)
        ensures
            r == (if self.peak() && self.settings().retry_on_peak {
                interval_ms(self.settings().retry_intervals_ms@, retry_count) * NANOS_PER_MILLI / 2
            } else {
                interval_ms(self.settings().retry_intervals_ms@, retry_count) * NANOS_PER_MILLI
            }),
    {
        let base: u128 = self.get_retry_interval(retry_count);
        if self.is_peak_traffic && self.config.retry_on_peak {
            base / 2
        } else {
            base
        }
    }

    /// Whether the registration of a peer failed.
    pub fn has_failed_registration(&self, peer_id: &str) -> (r: bool)
        ensures
            r == keyed::contains_key(self.pending(), peer_id@),
    {
        keyed::find(&self.failed_registrations, peer_id).is_some()
    }

    /// Why the registration of a peer failed.
    pub fn get_failure_reason(&self, peer_id: &str) -> (r: Option<&String>)
        requires
            self.wf(),
        ensures
            r is Some == keyed::contains_key(self.pending(), peer_id@),
            forall|i: int|
                0 <= i < self.pending().len() && (#[trigger] self.pending()[i]).peer_id@
                    == peer_id@ ==> r == Some(&self.pending()[i].failure_reason),
    {
        match keyed::find(&self.failed_registrations, peer_id) {
            Some(index) => {
                assert forall|i: int|
                    0 <= i < self.pending().len() && (#[trigger] self.pending()[i]).peer_id@
                        == peer_id@ implies i == index by {
                    assert(self.pending()[i].key() == self.pending()[index as int].key());
                }
                Some(&self.failed_registrations[index].failure_reason)
            },
            None => {
                assert forall|i: int|
                    0 <= i < self.pending().len() implies (#[trigger] self.pending()[i]).peer_id@
                    != peer_id@ by {
                    assert(self.pending()[i].key() == self.pending()[i].peer_id@);
                }
                None
            },
        }
    }

    /// Takes out and hands out all registrations.
    pub fn force_retry_all(&mut self) -> (r: Vec<(String, LightnodeRegistrationMessage)>)
        requires
            old(self).wf(),
        ensures
            final(self).wf(),
            final(self).same_settings(old(self)),
            final(self).counts() == old(self).counts(),
            final(self).pending().len() == 0,
            handed_on(final(self).handed_out(), old(self).handed_out(), old(self).pending()),
            r@ == old(self).pending().map_values(retry_of()),
    {
        let ghost h = self.handed_out@;
        let mut all: Vec<FailedRegistration> = Vec::new();
        std::mem::swap(&mut self.failed_registrations, &mut all);
        let ghost s = all@;
        let mut taken: Vec<(String, LightnodeRegistrationMessage)> = Vec::new();
        assert(h.take(h.len() as int) =~= h);
        for e in it: all
            invariant
                it.seq() == s,
                s == old(self).pending(),
                h == old(self).handed_out(),
                self.same_settings(old(self)),
                self.stats == old(self).stats,
                self.failed_registrations@.len() == 0,
                handed_on(self.handed_out@, h, s.take(it.index() as int)),
                taken@ == s.take(it.index() as int).map_values(retry_of()),
        {
            let ghost k = it.index() as int;
            let ghost g = self.handed_out@;
            self.handed_out.push(copy_failure(&e));
            proof {
                let next = self.handed_out@;
                assert(next.take(h.len() as int) =~= g.take(h.len() as int));
                assert forall|i: int| 0 <= i < s.take(k + 1).len() implies same_failure(
                    #[trigger] next[h.len() + i],
                    s.take(k + 1)[i],
                ) by {
                    if i < k {
                        assert(next[h.len() + i] == g[h.len() + i]);
                        assert(s.take(k + 1)[i] == s.take(k)[i]);
                    }
                }
            }
            taken.push((e.peer_id, e.registration));
        }
        assert(s.take(s.len() as int) =~= s);
        proof {
            handed_on_stay_in_bounds(
                self.handed_out@,
                h,
                s,
                self.failed_registrations@,
                self.config.max_retries,
            );
        }
        taken
    }

    /// Forgets what was counted.
    pub fn reset_stats(&mut self)
        requires
            old(self).wf(),
        ensures
            final(self).wf(),
            final(self).same_settings(old(self)),
            final(self).pending() == old(self).pending(),
            final(self).handed_out() == old(self).handed_out(),
            final(self).counts() == no_retries(),
    {
        self.stats = RetryStats::default();
    }
}

/// A registration that has failed as often as is allowed is given up: it is neither pending nor
/// tried again.
pub proof fn failed_too_often(
    before: LocalRetryManager,
    after: LocalRetryManager,
    i: int,
    reason: String,
    now: u64,
)
    requires
        before.wf(),
        0 <= i < before.pending().len(),
        before.pending()[i].retry_count + 1 >= before.settings().max_retries,
        after.another_failure(&before, before.pending()[i].peer_id@, reason, now),
    ensures
        !keyed::contains_key(after.pending(), before.pending()[i].peer_id@),
        after.counts().total_failures == before.counts().total_failures,
{
    let s = before.pending();
    assert(s[i].peer_id@ == before.pending()[i].peer_id@);
    let t = after.pending();
    assert forall|j: int| 0 <= j < t.len() implies (#[trigger] t[j]).key() != s[i].key() by {
        if j < i {
            assert(t[j] == s[j]);
        } else {
            assert(t[j] == s[j + 1]);
        }
    }
}

/// A retry that worked counts: when a registration was handed out and its peer then succeeds, one
/// more success is counted, and nothing of the peer is pending.
pub proof fn worked_retries_are_counted(
    before: LocalRetryManager,
    between: LocalRetryManager,
    after: LocalRetryManager,
    taken: Seq<(String, LightnodeRegistrationMessage)>,
    now: u64,
    k: int,
)
    requires
        before.wf(),
        between.wf(),
        between.retries_taken(&before, taken, now),
        0 <= k < taken.len(),
        after.attempt_succeeded(&between, taken[k].0@),
        before.counts().successful_retries < u64::MAX,
    ensures
        after.counts().successful_retries == before.counts().successful_retries + 1,
        !keyed::contains_key(after.pending(), taken[k].0@),
        !keyed::contains_key(after.handed_out(), taken[k].0@),
{
    let intervals = before.settings().retry_intervals_ms@;
    let age = before.settings().max_failure_age_secs;
    let out = before.pending().filter(ready(intervals, age, now));
    assert(taken[k] == retry_of()(out[k]));
    let i = before.handed_out().len() + k;
    assert(same_failure(between.handed_out()[i], out[k]));
    assert(between.handed_out()[i].key() == taken[k].0@);
    keyed::without_key_contains(between.pending(), taken[k].0@, taken[k].0@);
    keyed::without_key_contains(between.handed_out(), taken[k].0@, taken[k].0@);
}

/// What is due is either handed out or given up: what is handed out is no longer pending.
pub proof fn taken_are_not_pending(
    before: LocalRetryManager,
    after: LocalRetryManager,
    taken: Seq<(String, LightnodeRegistrationMessage)>,
    now: u64,
    k: int,
)
    requires
        before.wf(),
        after.retries_taken(&before, taken, now),
        0 <= k < taken.len(),
    ensures
        !keyed::contains_key(after.pending(), taken[k].0@),
{
    let s = before.pending();
    let intervals = before.settings().retry_intervals_ms@;
    let age = before.settings().max_failure_age_secs;
    let p = ready(intervals, age, now);
    let q = not_due(intervals, now);
    keyed::filter_keeps_unique(s, p);
    keyed::filter_keeps_unique(s, q);
    let a = s.filter(p)[k];
    assert(taken[k] == retry_of()(a));
    assert(p(a));
    let i = choose|i: int| 0 <= i < s.len() && s[i] == a;
    let t = after.pending();
    assert forall|j: int| 0 <= j < t.len() implies (#[trigger] t[j]).key() != a.key() by {
        assert(q(s.filter(q)[j]));
        let m = choose|m: int| 0 <= m < s.len() && s[m] == t[j];
        if s[m].key() == s[i].key() {
            assert(m == i);
        }
    }
}

/// The wait before a retry is the interval for that retry; after the last interval it stays as
/// it is, and where there is none it is two seconds.
pub proof fn waits_follow_the_intervals(intervals: Seq<u64>, n: u32)
    ensures
        n < intervals.len() ==> interval_ms(intervals, n) == intervals[n as int],
        n >= intervals.len() > 0 ==> interval_ms(intervals, n) == intervals[intervals.len() - 1],
        intervals.len() == 0 ==> interval_ms(intervals, n) == 2000,
{
}

/// A registration that failed is due at once where it was not retried yet, and else when as many
/// milliseconds have gone by as its retry waits. It is too old when more seconds than the limit
/// have gone by in full.
pub proof fn retries_have_their_time(
    intervals: Seq<u64>,
    max_age_secs: u64,
    e: FailedRegistration,
    now: u64,
)
    requires
        e.last_failure <= now,
    ensures
        e.retry_count == 0 ==> due(intervals, now)(e),
        e.retry_count > 0 ==> (due(intervals, now)(e) <==> now - e.last_failure >= interval_ms(
            intervals,
            e.retry_count,
        ) * 1_000_000),
        too_old(max_age_secs, now)(e) <==> now - e.last_failure >= (max_age_secs + 1)
            * 1_000_000_000,
{
}

/// When retries are taken, a registration that is due leaves the waiting ones and no other does.
/// Those that are not too old are handed out, and nothing is that did not wait.
pub proof fn due_retries_are_handed_out(
    before: LocalRetryManager,
    after: LocalRetryManager,
    taken: Seq<(String, LightnodeRegistrationMessage)>,
    now: u64,
    e: FailedRegistration,
)
    requires
        before.wf(),
        after.retries_taken(&before, taken, now),
        before.pending().contains(e),
        e.last_failure <= now,
    ensures
        ({
            let waits = interval_ms(before.settings().retry_intervals_ms@, e.retry_count);
            let is_due = e.retry_count == 0 || now - e.last_failure >= waits * 1_000_000;
            let is_old = now - e.last_failure >= (before.settings().max_failure_age_secs + 1)
                * 1_000_000_000;
            &&& after.pending().contains(e) <==> !is_due
            &&& is_due && !is_old ==> taken.contains((e.peer_id, e.registration))
            &&& forall|k: int|
                0 <= k < taken.len() ==> exists|j: int|
                    #![trigger before.pending()[j]]
                    0 <= j < before.pending().len() && before.pending()[j].peer_id
                        == #[trigger] taken[k].0 && before.pending()[j].registration == taken[k].1
        }),
        after.counts().total_failures == before.counts().total_failures,
        after.counts().successful_retries == before.counts().successful_retries,
{
    let intervals = before.settings().retry_intervals_ms@;
    let age = before.settings().max_failure_age_secs;
    let p = before.pending();
    let chosen = p.filter(ready(intervals, age, now));
    retries_have_their_time(intervals, age, e, now);
    keyed::filter_keeps_the_wanted(p, not_due(intervals, now), e);
    keyed::filter_keeps_the_wanted(p, ready(intervals, age, now), e);
    if due(intervals, now)(e) && !too_old(age, now)(e) {
        let i = choose|i: int| 0 <= i < chosen.len() && chosen[i] == e;
        assert(taken[i] == (e.peer_id, e.registration));
    }
    assert forall|k: int| 0 <= k < taken.len() implies exists|j: int|
        #![trigger before.pending()[j]]
        0 <= j < before.pending().len() && before.pending()[j].peer_id == #[trigger] taken[k].0
            && before.pending()[j].registration == taken[k].1 by {
        assert(chosen.contains(chosen[k]));
        keyed::filter_keeps_the_wanted(p, ready(intervals, age, now), chosen[k]);
        let j = choose|j: int| 0 <= j < p.len() && p[j] == chosen[k];
        assert(before.pending()[j].peer_id == taken[k].0);
    }
}

/// A first failure is remembered as it is and counted; the registration is due at once.
pub proof fn first_failures_are_remembered(
    before: LocalRetryManager,
    after: LocalRetryManager,
    peer_id: String,
    registration: LightnodeRegistrationMessage,
    reason: String,
    now: u64,
)
    requires
        after.failure_recorded(&before, peer_id, registration, reason, now),
        forall|i: int|
            0 <= i < before.pending().len() ==> (#[trigger] before.pending()[i]).peer_id@
                != peer_id@,
        before.counts().total_failures < u64::MAX,
    ensures
        after.pending().len() == before.pending().len() + 1,
        forall|i: int|
            0 <= i < before.pending().len() ==> after.pending()[i]
                == #[trigger] before.pending()[i],
        ({
            let e = after.pending().last();
            &&& e.peer_id == peer_id
            &&& e.registration == registration
            &&& e.failure_reason == reason
            &&& e.last_failure == now
            &&& e.retry_count == 0
        }),
        after.counts().total_failures == before.counts().total_failures + 1,
        after.counts().abandoned_registrations == before.counts().abandoned_registrations,
        after.counts().successful_retries == before.counts().successful_retries,
{
}

/// Another failure counts as one more retry, at its time and with its reason, for as long as
/// fewer have failed than are allowed; then the registration is abandoned. The others stay.
pub proof fn further_failures_are_counted(
    before: LocalRetryManager,
    after: LocalRetryManager,
    i: int,
    reason: String,
    now: u64,
    k: int,
)
    requires
        before.wf(),
        0 <= i < before.pending().len(),
        after.retry_failed(&before, before.pending()[i].peer_id@, reason, now),
        before.counts().abandoned_registrations < u64::MAX,
        before.pending()[i].retry_count < u32::MAX,
        0 <= k < before.pending().len(),
        k != i,
    ensures
        after.pending().contains(before.pending()[k]),
        after.handed_out() == before.handed_out(),
        ({
            let e = before.pending()[i];
            let last = e.retry_count + 1 >= before.settings().max_retries;
            &&& !last ==> {
                &&& after.pending()[i].peer_id == e.peer_id
                &&& after.pending()[i].registration == e.registration
                &&& after.pending()[i].retry_count == e.retry_count + 1
                &&& after.pending()[i].last_failure == now
                &&& after.pending()[i].failure_reason == reason
                &&& after.counts() == before.counts()
            }
            &&& last ==> {
                &&& after.pending().len() == before.pending().len() - 1
                &&& after.counts().abandoned_registrations
                    == before.counts().abandoned_registrations + 1
            }
        }),
{
    let p = before.pending();
    assert(keyed::contains_key(p, p[i].peer_id@)) by {
        assert(p[i].key() == p[i].peer_id@);
    }
    assert(p[i].peer_id@ == before.pending()[i].peer_id@);
    if p[i].retry_count + 1 >= before.settings().max_retries {
        if k < i {
            assert(after.pending()[k] == p[k]);
        } else {
            assert(after.pending()[k - 1] == p[k]);
        }
    } else {
        assert(after.pending()[k] == p[k]);
    }
}

/// A retry that was handed out and failed waits again, with one more retry to its count, or is
/// abandoned where as many have failed as are allowed. Either way it is no longer handed out.
pub proof fn failed_retries_wait_again(
    before: LocalRetryManager,
    after: LocalRetryManager,
    i: int,
    reason: String,
    now: u64,
)
    requires
        before.wf(),
        0 <= i < before.handed_out().len(),
        after.retry_failed(&before, before.handed_out()[i].peer_id@, reason, now),
        before.counts().abandoned_registrations < u64::MAX,
        before.handed_out()[i].retry_count < u32::MAX,
    ensures
        forall|e: FailedRegistration|
            after.handed_out().contains(e) <==> before.handed_out().contains(e) && e.peer_id@
                != before.handed_out()[i].peer_id@,
        ({
            let e = before.handed_out()[i];
            let last = e.retry_count + 1 >= before.settings().max_retries;
            &&& !last ==> {
                &&& after.pending().len() == before.pending().len() + 1
                &&& after.pending().drop_last() == before.pending()
                &&& after.pending().last().peer_id == e.peer_id
                &&& after.pending().last().registration == e.registration
                &&& after.pending().last().retry_count == e.retry_count + 1
                &&& after.pending().last().last_failure == now
                &&& after.pending().last().failure_reason == reason
                &&& after.counts() == before.counts()
            }
            &&& last ==> {
                &&& after.pending() == before.pending()
                &&& after.counts().abandoned_registrations
                    == before.counts().abandoned_registrations + 1
            }
        }),
{
    let h = before.handed_out();
    let p = before.pending();
    let id = h[i].peer_id@;
    assert(keyed::contains_key(h, id)) by {
        assert(h[i].key() == id);
    }
    assert(!keyed::contains_key(p, id)) by {
        if keyed::contains_key(p, id) {
            let j = choose|j: int| 0 <= j < p.len() && p[j].key() == id;
            assert(p[j].peer_id@ != h[i].peer_id@);
        }
    }
    keyed::without_key_keeps_the_rest(h, id);
    assert(h[i].peer_id@ == id);
    if h[i].retry_count + 1 < before.settings().max_retries {
        assert(after.pending().drop_last() =~= p);
    }
}

/// At a cleanup those leave that failed longer ago than the limit, whether they wait or were
/// handed out, and no others.
pub proof fn old_failures_are_dropped(
    before: LocalRetryManager,
    after: LocalRetryManager,
    now: u64,
    e: FailedRegistration,
)
    requires
        after.cleaned_up(&before, now),
        e.last_failure <= now,
    ensures
        ({
            let is_old = now - e.last_failure >= (before.settings().max_failure_age_secs + 1)
                * 1_000_000_000;
            &&& after.pending().contains(e) <==> before.pending().contains(e) && !is_old
            &&& after.handed_out().contains(e) <==> before.handed_out().contains(e) && !is_old
        }),
        after.counts().total_failures == before.counts().total_failures,
        after.counts().successful_retries == before.counts().successful_retries,
{
    let age = before.settings().max_failure_age_secs;
    retries_have_their_time(before.settings().retry_intervals_ms@, age, e, now);
    keyed::filter_keeps_the_wanted(before.pending(), young(age, now), e);
    keyed::filter_keeps_the_wanted(before.handed_out(), young(age, now), e);
}

/// The attempts are the retries of all registrations that wait, added up.
pub proof fn attempts_add_up(s: Seq<FailedRegistration>, e: FailedRegistration)
    ensures
        attempts(Seq::empty()) == 0,
        attempts(s.push(e)) == attempts(s) + e.retry_count,
{
    assert(s.push(e).drop_last() =~= s);
}

/// A registration that is handed out is the one that failed, in every part.
pub proof fn registrations_are_retried_as_they_were(
    before: LocalRetryManager,
    after: LocalRetryManager,
    taken: Seq<(String, LightnodeRegistrationMessage)>,
    now: u64,
    k: int,
)
    requires
        after.retries_taken(&before, taken, now),
        0 <= k < taken.len(),
    ensures
        ({
            let e = after.handed_out()[before.handed_out().len() + k];
            &&& after.handed_out().len() == before.handed_out().len() + taken.len()
            &&& e.peer_id@ == taken[k].0@
            &&& e.registration.node_id@ == taken[k].1.node_id@
            &&& e.registration.peer_id@ == taken[k].1.peer_id@
            &&& e.registration.multiaddr@ == taken[k].1.multiaddr@
            &&& e.registration.geographic_region@ == taken[k].1.geographic_region@
            &&& e.registration.pou_score_bits == taken[k].1.pou_score_bits
            &&& e.registration.capabilities@ == taken[k].1.capabilities@
            &&& e.registration.uptime_percentage_bits == taken[k].1.uptime_percentage_bits
            &&& e.registration.account == taken[k].1.account
        }),
{
    let intervals = before.settings().retry_intervals_ms@;
    let age = before.settings().max_failure_age_secs;
    let chosen = before.pending().filter(ready(intervals, age, now));
    assert(same_failure(after.handed_out()[before.handed_out().len() + k], chosen[k]));
    assert(taken[k] == (chosen[k].peer_id, chosen[k].registration));
}

} // verus!
