//! Admission decisions of the network listeners: the per-address rate limit
//! on new TCP connections, the global connection cap, and the size checks
//! on UDP datagrams and on the TCP receive buffer.

use vstd::prelude::*;
use crate::exports::ClientAddr;
use crate::rpc::{MAX_RECV_BUF, MAX_UDP_RESPONSE_SIZE};

verus! {

/// What the limiter remembers of one address: connections counted in the
/// current window, when the window opened (ms), and whether a rejection
/// in this window was already reported.
pub struct RateEntry {
    pub addr: ClientAddr,
    pub count: u64,
    pub start_ms: u64,
    pub warned: bool,
}

/// `(count, start_ms, warned)` of one address.
pub type RateState = (u64, u64, bool);

/// Whether two addresses are the same.
pub open spec fn same_addr(a: ClientAddr, b: ClientAddr) -> bool {
    a.is_v6 == b.is_v6 && a.addr == b.addr
}

/// The state kept in an entry.
pub open spec fn entry_state(e: RateEntry) -> RateState {
    (e.count, e.start_ms, e.warned)
}

/// Whether some entry of `s` is for `a`.
pub open spec fn tracked_in(s: Seq<RateEntry>, a: ClientAddr) -> bool {
    exists|i: int| 0 <= i < s.len() && same_addr(#[trigger] s[i].addr, a)
}

/// The state recorded for `a` in `s`, if any.
pub open spec fn state_in(s: Seq<RateEntry>, a: ClientAddr) -> Option<RateState> {
    if tracked_in(s, a) {
        Some(entry_state(s[choose|i: int| 0 <= i < s.len() && same_addr(#[trigger] s[i].addr, a)]))
    } else {
        None
    }
}

/// Time since `start`, or zero if the clock reads earlier.
pub open spec fn elapsed(now: u64, start: u64) -> int {
    if now >= start { now - start } else { 0 }
}

/// `c + 1`, held at the largest `u64`.
pub open spec fn bump(c: u64) -> u64 {
    if c < u64::MAX { (c + 1) as u64 } else { c }
}

/// One connection attempt at `now` against the state `st` of its address:
/// the new state, whether the connection is allowed, and whether this is the
/// first rejection of the window.
///
/// Once the window is over the count restarts at one and the attempt is
/// allowed. Otherwise the count goes up and the attempt is allowed while it
/// stays within `max`; past it the attempt is refused, and only the first
/// refusal of the window is flagged.
pub open spec fn rate_step(st: RateState, now: u64, window_ms: u64, max: u64) -> (RateState, (bool, bool)) {
    if elapsed(now, st.1) > window_ms {
        ((1, now, false), (true, false))
    } else {
        let c = bump(st.0);
        if c <= max {
            ((c, st.1, st.2), (true, false))
        } else {
            ((c, st.1, true), (false, !st.2))
        }
    }
}

/// The state an address starts a check from: its record, or a fresh window
/// opened now with no connection counted.
pub open spec fn prior_state(s: Seq<RateEntry>, a: ClientAddr, now: u64) -> RateState {
    match state_in(s, a) {
        Some(st) => st,
        None => (0, now, false),
    }
}

/// Per-address limit on new connections within a time window.
pub struct ConnRateLimiter {
    entries: Vec<RateEntry>,
    window_ms: u64,
    max_per_ip: u64,
}

impl ConnRateLimiter {
    /// The recorded entries.
    pub closed spec fn entries_view(&self) -> Seq<RateEntry> {
        self.entries@
    }

    /// Length of the window, in ms.
    pub closed spec fn window(&self) -> u64 {
        self.window_ms
    }

    /// Connections allowed per address within a window.
    pub closed spec fn max(&self) -> u64 {
        self.max_per_ip
    }

    /// The state recorded for `a`.
    pub open spec fn state(&self, a: ClientAddr) -> Option<RateState> {
        state_in(self.entries_view(), a)
    }

    /// No address is recorded twice, and each record counts a connection.
    pub closed spec fn wf(&self) -> bool {
        &&& forall|i: int, j: int|
            0 <= i < j < self.entries@.len() ==> !same_addr(
                #[trigger] self.entries@[i].addr,
                #[trigger] self.entries@[j].addr,
            )
        &&& forall|i: int| 0 <= i < self.entries@.len() ==> #[trigger] self.entries@[i].count >= 1
    }

    /// A limiter that allows `max_per_ip` new connections per address in
    /// each window of `window_secs` seconds.
    pub fn new(max_per_ip: u64, window_secs: u64) -> (r: Self)
        requires
            window_secs <= u64::MAX / 1000,
        ensures
            r.wf(),
            r.window() == window_secs * 1000,
            r.max() == max_per_ip,
            forall|a: ClientAddr| r.state(a) is None,
    {
        ConnRateLimiter { entries: Vec::new(), window_ms: window_secs * 1000, max_per_ip }
    }

    /// Index of the entry for `a`.
    fn find(&self, a: &ClientAddr) -> (r: Option<usize>)
        requires
            self.wf(),
        ensures
            match r {
                Some(i) => i < self.entries@.len() && same_addr(self.entries@[i as int].addr, *a)
                    && self.state(*a) == Some(entry_state(self.entries@[i as int])),
                None => self.state(*a) is None,
            },
    {
        let mut i: usize = 0;
        while i < self.entries.len()
            invariant
                self.wf(),
                i <= self.entries@.len(),
                forall|k: int| 0 <= k < i ==> !same_addr(#[trigger] self.entries@[k].addr, *a),
            decreases self.entries@.len() - i,
        {
            let e = &self.entries[i];
            if e.addr.is_v6 == a.is_v6 && e.addr.addr == a.addr {
                proof {
                    let s = self.entries@;
                    assert(same_addr(s[i as int].addr, *a));
                    let j = choose|j: int| 0 <= j < s.len() && same_addr(#[trigger] s[j].addr, *a);
                    if j != i {
                        if j < i {
                            assert(!same_addr(s[j].addr, s[i as int].addr));
                        } else {
                            assert(!same_addr(s[i as int].addr, s[j].addr));
                        }
                    }
                }
                return Some(i);
            }
            i += 1;
        }
        None
    }

    /// Records a new connection from `a` at time `now` (ms) and answers
    /// `(allowed, first_rejection)`.
    pub fn check(&mut self, a: ClientAddr, now: u64) -> (r: (bool, bool))
        requires
            old(self).wf(),
        ensures
            final(self).wf(),
            final(self).window() == old(self).window(),
            final(self).max() == old(self).max(),
            final(self).state(a) == Some(
                rate_step(prior_state(old(self).entries_view(), a, now), now, old(self).window(), old(self).max()).0,
            ),
            r == rate_step(prior_state(old(self).entries_view(), a, now), now, old(self).window(), old(self).max()).1,
            forall|b: ClientAddr| !same_addr(b, a) ==> #[trigger] final(self).state(b) == old(self).state(b),
    {
        let found = self.find(&a);
        let ghost s0 = self.entries@;
        let (count, start, warned) = match found {
            Some(i) => {
                let e = &self.entries[i];
                (e.count, e.start_ms, e.warned)
            },
            None => (0u64, now, false),
        };
        let el = if now >= start { now - start } else { 0 };
        let (nc, ns, nw, res) = if el > self.window_ms {
            (1u64, now, false, (true, false))
        } else {
            let c = if count < u64::MAX { count + 1 } else { count };
            if c <= self.max_per_ip {
                (c, start, warned, (true, false))
            } else {
                (c, start, true, (false, !warned))
            }
        };
        let entry = RateEntry { addr: a, count: nc, start_ms: ns, warned: nw };
        match found {
            Some(i) => {
                self.entries.set(i, entry);
            },
            None => {
                self.entries.push(entry);
            },
        }
        proof {
            let s1 = self.entries@;
            let ni: int = match found { Some(i) => i as int, None => s0.len() as int };
            assert(s1[ni] == entry);
            assert(nc >= 1);
            assert(forall|k: int| 0 <= k < s1.len() && k != ni ==> s1[k] == s0[k]);
            assert(same_addr(s1[ni].addr, a));
            // the entry for `a` is the only one
            let j = choose|j: int| 0 <= j < s1.len() && same_addr(#[trigger] s1[j].addr, a);
            if j != ni {
                assert(s1[j] == s0[j]);
                assert(tracked_in(s0, a));
                assert(found is Some);
                let i = found->0 as int;
                if j < i {
                    assert(!same_addr(s0[j].addr, s0[i].addr));
                } else {
                    assert(!same_addr(s0[i].addr, s0[j].addr));
                }
            }
            assert(tracked_in(s1, a));
            assert(state_in(s1, a) == Some(entry_state(entry)));
            assert forall|b: ClientAddr| !same_addr(b, a) implies #[trigger] state_in(s1, b) == state_in(s0, b) by {
                if tracked_in(s0, b) {
                    let k = choose|k: int| 0 <= k < s0.len() && same_addr(#[trigger] s0[k].addr, b);
                    assert(k != ni);
                    assert(same_addr(s1[k].addr, b));
                    let k1 = choose|k: int| 0 <= k < s1.len() && same_addr(#[trigger] s1[k].addr, b);
                    assert(k1 != ni);
                    assert(s1[k1] == s0[k1]);
                    if k1 != k {
                        if k1 < k {
                            assert(!same_addr(s0[k1].addr, s0[k].addr));
                        } else {
                            assert(!same_addr(s0[k].addr, s0[k1].addr));
                        }
                    }
                } else if tracked_in(s1, b) {
                    let k1 = choose|k: int| 0 <= k < s1.len() && same_addr(#[trigger] s1[k].addr, b);
                    assert(k1 != ni);
                    assert(s1[k1] == s0[k1]);
                    assert(same_addr(s0[k1].addr, b));
                }
            }
            assert forall|x: int, y: int| 0 <= x < y < s1.len() implies !same_addr(
                #[trigger] s1[x].addr,
                #[trigger] s1[y].addr,
            ) by {
                if x == ni {
                    assert(s1[y] == s0[y]);
                    if same_addr(s0[y].addr, a) {
                        assert(found is Some);
                        let i = found->0 as int;
                        assert(!same_addr(s0[i].addr, s0[y].addr));
                    }
                } else if y == ni {
                    assert(s1[x] == s0[x]);
                    if same_addr(s0[x].addr, a) {
                        assert(found is Some);
                        let i = found->0 as int;
                        assert(!same_addr(s0[x].addr, s0[i].addr));
                    }
                }
            }
        }
        res
    }

    /// Drops the stale entries: those whose window is over at `now`.
    pub fn cleanup(&mut self, now: u64)
        requires
            old(self).wf(),
        ensures
            final(self).wf(),
            final(self).window() == old(self).window(),
            final(self).max() == old(self).max(),
            final(self).entries_view() == old(self).entries_view().filter(still_needed(now, old(self).window())),
    {
        let ghost s0 = self.entries@;
        let ghost keep = still_needed(now, self.window_ms);
        let mut kept: Vec<RateEntry> = Vec::new();
        let mut i: usize = 0;
        while i < self.entries.len()
            invariant
                i <= s0.len(),
                self.entries@ == s0,
                keep == still_needed(now, self.window_ms),
                kept@ == s0.subrange(0, i as int).filter(keep),
            decreases s0.len() - i,
        {
            let e = &self.entries[i];
            let el = if now >= e.start_ms { now - e.start_ms } else { 0 };
            proof {
                reveal(Seq::filter);
                assert(s0.subrange(0, i + 1).drop_last() =~= s0.subrange(0, i as int));
            }
            if el <= self.window_ms {
                kept.push(RateEntry { addr: e.addr, count: e.count, start_ms: e.start_ms, warned: e.warned });
            }
            i += 1;
        }
        proof {
            assert(s0.subrange(0, s0.len() as int) =~= s0);
            lemma_filter_keeps_distinct(s0, keep);
        }
        self.entries = kept;
    }
}

/// Whether cleanup keeps an entry at `now`: its window is still open.
pub open spec fn still_needed(now: u64, window_ms: u64) -> spec_fn(RateEntry) -> bool {
    |e: RateEntry| elapsed(now, e.start_ms) <= window_ms
}

/// Filtering keeps addresses distinct and counts positive.
proof fn lemma_filter_keeps_distinct(s: Seq<RateEntry>, keep: spec_fn(RateEntry) -> bool)
    requires
        forall|i: int, j: int| 0 <= i < j < s.len() ==> !same_addr(#[trigger] s[i].addr, #[trigger] s[j].addr),
        forall|i: int| 0 <= i < s.len() ==> #[trigger] s[i].count >= 1,
    ensures
        forall|i: int, j: int|
            0 <= i < j < s.filter(keep).len() ==> !same_addr(
                #[trigger] s.filter(keep)[i].addr,
                #[trigger] s.filter(keep)[j].addr,
            ),
        forall|i: int| 0 <= i < s.filter(keep).len() ==> #[trigger] s.filter(keep)[i].count >= 1,
    decreases s.len(),
{
    reveal(Seq::filter);
    if s.len() > 0 {
        let t = s.drop_last();
        let ft = t.filter(keep);
        lemma_filter_keeps_distinct(t, keep);
        assert forall|i: int| 0 <= i < ft.len() implies !same_addr(#[trigger] ft[i].addr, s.last().addr)
            && ft[i].count >= 1 by {
            assert(ft.contains(ft[i]));
            t.lemma_filter_contains_rev(keep, ft[i]);
            let k = choose|k: int| 0 <= k < t.len() && t[k] == ft[i];
            assert(s[k] == t[k]);
            assert(!same_addr(s[k].addr, s[s.len() - 1].addr));
        }
    }
}

/// After a cleanup at `now`, every remaining entry's window is still open,
/// and every entry whose window was open is still there with its state.
pub proof fn lemma_cleanup_drops_stale(l: ConnRateLimiter, now: u64)
    ensures
        forall|i: int|
            0 <= i < l.entries_view().filter(still_needed(now, l.window())).len() ==> elapsed(
                now,
                #[trigger] l.entries_view().filter(still_needed(now, l.window()))[i].start_ms,
            ) <= l.window(),
        forall|e: RateEntry|
            #[trigger] l.entries_view().contains(e) && elapsed(now, e.start_ms) <= l.window()
                ==> l.entries_view().filter(still_needed(now, l.window())).contains(e),
{
    let s = l.entries_view();
    let keep = still_needed(now, l.window());
    assert forall|i: int| 0 <= i < s.filter(keep).len() implies elapsed(
        now,
        #[trigger] s.filter(keep)[i].start_ms,
    ) <= l.window() by {
        lemma_filtered_kept(s, keep, i);
    }
    assert forall|e: RateEntry| #[trigger] s.contains(e) && elapsed(now, e.start_ms) <= l.window()
        implies s.filter(keep).contains(e) by {
        let k = choose|k: int| 0 <= k < s.len() && s[k] == e;
        s.lemma_filter_contains(keep, k);
    }
}

/// Each item that a filter keeps satisfies the predicate.
proof fn lemma_filtered_kept(s: Seq<RateEntry>, keep: spec_fn(RateEntry) -> bool, i: int)
    requires
        0 <= i < s.filter(keep).len(),
    ensures
        keep(s.filter(keep)[i]),
    decreases s.len(),
{
    reveal(Seq::filter);
    if s.len() > 0 {
        let t = s.drop_last();
        if i < t.filter(keep).len() {
            lemma_filtered_kept(t, keep, i);
        }
    }
}

/// Within one window, an address that has used up its allowance is refused,
/// whatever the other addresses do.
pub proof fn lemma_over_limit_refused(st: RateState, now: u64, window_ms: u64, max: u64)
    requires
        elapsed(now, st.1) <= window_ms,
        max <= st.0 < u64::MAX,
    ensures
        !rate_step(st, now, window_ms, max).1.0,
        rate_step(st, now, window_ms, max).0.2,
{
}

/// A refusal is flagged as the first one exactly once per window: a second
/// refused attempt in the same window is not flagged.
pub proof fn lemma_first_rejection_once(st: RateState, now1: u64, now2: u64, window_ms: u64, max: u64)
    requires
        !rate_step(st, now1, window_ms, max).1.0,
        elapsed(now2, st.1) <= window_ms,
    ensures
        !rate_step(rate_step(st, now1, window_ms, max).0, now2, window_ms, max).1.0,
        !rate_step(rate_step(st, now1, window_ms, max).0, now2, window_ms, max).1.1,
{
}

/// Once the window has passed, the next attempt is allowed and opens a new
/// window with one connection counted.
pub proof fn lemma_window_reset(st: RateState, now: u64, window_ms: u64, max: u64)
    requires
        elapsed(now, st.1) > window_ms,
    ensures
        rate_step(st, now, window_ms, max).1 == (true, false),
        rate_step(st, now, window_ms, max).0 == (1u64, now, false),
{
}

/// The state after a series of attempts at the instants `times`, from `st`.
pub open spec fn replay(st: RateState, times: Seq<u64>, window_ms: u64, max: u64) -> RateState
    decreases times.len(),
{
    if times.len() == 0 {
        st
    } else {
        rate_step(replay(st, times.drop_last(), window_ms, max), times.last(), window_ms, max).0
    }
}

/// An address seen for the first time at `t0`, then attempting `n` connections
/// at instants that all fall within the window opened at `t0`: after them
/// `n` connections are counted, and a refusal has been flagged exactly when
/// `n` exceeds the allowance. The `n`-th attempt is allowed when `n` is within
/// the allowance, and flagged as the first refusal exactly when `n` is one
/// past it.
pub proof fn lemma_attempts_within_window(t0: u64, times: Seq<u64>, window_ms: u64, max: u64)
    requires
        times.len() < u64::MAX,
        forall|i: int| 0 <= i < times.len() ==> t0 <= #[trigger] times[i] && times[i] - t0 <= window_ms,
    ensures
        replay((0, t0, false), times, window_ms, max) == (times.len() as u64, t0, times.len() > max),
        times.len() > 0 ==> rate_step(
            replay((0, t0, false), times.drop_last(), window_ms, max),
            times.last(),
            window_ms,
            max,
        ).1 == (times.len() <= max, times.len() == max + 1),
    decreases times.len(),
{
    if times.len() > 0 {
        let t = times.drop_last();
        assert forall|i: int| 0 <= i < t.len() implies t0 <= #[trigger] t[i] && t[i] - t0 <= window_ms by {
            assert(t[i] == times[i]);
        }
        lemma_attempts_within_window(t0, t, window_ms, max);
        assert(times.last() == times[times.len() - 1]);
    }
}

/// Whether `ls` and `answers` are what successive `check(a, times[k])`
/// calls give: `ls[k + 1]` is the limiter after the `k`-th call on `ls[k]`
/// (as far as its contract says), and `answers[k]` what that call answered.
pub open spec fn check_trace(ls: Seq<ConnRateLimiter>, a: ClientAddr, times: Seq<u64>, answers: Seq<(bool, bool)>) -> bool {
    &&& ls.len() == times.len() + 1
    &&& answers.len() == times.len()
    &&& forall|k: int| #![trigger answers[k]] 0 <= k < times.len() ==> {
        &&& ls[k + 1].window() == ls[k].window()
        &&& ls[k + 1].max() == ls[k].max()
        &&& ls[k + 1].state(a) == Some(
            rate_step(prior_state(ls[k].entries_view(), a, times[k]), times[k], ls[k].window(), ls[k].max()).0)
        &&& answers[k] == rate_step(prior_state(ls[k].entries_view(), a, times[k]), times[k], ls[k].window(),
            ls[k].max()).1
    }
}

/// Along a trace of checks for one address, after `j` calls the address's
/// state is the replay of the first `j` instants.
proof fn lemma_trace_states(ls: Seq<ConnRateLimiter>, a: ClientAddr, times: Seq<u64>, answers: Seq<(bool, bool)>, j: int)
    requires
        check_trace(ls, a, times, answers),
        ls[0].state(a) is None,
        1 <= j <= times.len(),
    ensures
        ls[j].window() == ls[0].window(),
        ls[j].max() == ls[0].max(),
        ls[j].state(a) == Some(replay((0, times[0], false), times.take(j), ls[0].window(), ls[0].max())),
    decreases j,
{
    let w = ls[0].window();
    let mx = ls[0].max();
    let k = j - 1;
    assert(answers[k] == answers[k]);
    assert(ls[k + 1].window() == ls[k].window() && ls[k + 1].max() == ls[k].max());
    let st0: RateState = (0, times[0], false);
    if j == 1 {
        assert(times.take(1).drop_last() =~= times.take(0));
        assert(times.take(0) =~= Seq::<u64>::empty());
        assert(replay(st0, times.take(0), w, mx) == st0);
        assert(times.take(1).last() == times[0]);
        assert(prior_state(ls[0].entries_view(), a, times[0]) == st0);
    } else {
        lemma_trace_states(ls, a, times, answers, j - 1);
        assert(times.take(j).drop_last() =~= times.take(j - 1));
        assert(times.take(j).last() == times[j - 1]);
        assert(prior_state(ls[k].entries_view(), a, times[k]) == replay(st0, times.take(k), w, mx));
    }
    assert(replay(st0, times.take(j), w, mx) == rate_step(replay(st0, times.take(j).drop_last(), w, mx),
        times.take(j).last(), w, mx).0);
}

/// `ConnRateLimiter::check` over a series of calls: for an address the
/// limiter has no record of, attempts at instants that all fall within the
/// window opened by the first get, for the `k`-th attempt (counting from
/// one), `(true, false)` while `k` is within the allowance, `(false, true)`
/// for the first one past it, and `(false, false)` after that.
pub proof fn lemma_check_sequence(ls: Seq<ConnRateLimiter>, a: ClientAddr, times: Seq<u64>, answers: Seq<(bool, bool)>)
    requires
        check_trace(ls, a, times, answers),
        ls[0].state(a) is None,
        times.len() < u64::MAX,
        forall|k: int| 0 <= k < times.len() ==> times[0] <= #[trigger] times[k] && times[k] - times[0] <= ls[0].window(),
    ensures
        forall|k: int| 0 <= k < times.len() ==> #[trigger] answers[k] == (k + 1 <= ls[0].max(), k + 1 == ls[0].max() + 1),
{
    let w = ls[0].window();
    let mx = ls[0].max();
    let t0 = times[0];
    assert forall|k: int| 0 <= k < times.len() implies #[trigger] answers[k] == (k + 1 <= mx, k + 1 == mx + 1) by {
        let t = times.take(k + 1);
        assert forall|i: int| 0 <= i < t.len() implies t0 <= #[trigger] t[i] && t[i] - t0 <= w by {
            assert(0 <= i < times.len());
            assert(t[i] == times[i]);
            assert(times[0] <= times[i] && times[i] - times[0] <= ls[0].window());
        }
        lemma_attempts_within_window(t0, t, w, mx);
        assert(t.drop_last() =~= times.take(k));
        assert(t.last() == times[k]);
        if k == 0 {
            assert(times.take(0) =~= Seq::<u64>::empty());
            assert(prior_state(ls[0].entries_view(), a, times[0]) == (0u64, t0, false));
        } else {
            lemma_trace_states(ls, a, times, answers, k);
        }
    }
}

/// Whether a new TCP connection fits under the global cap: refused once
/// `current` connections are open and `current >= max`.
pub fn admit_connection(current: usize, max_connections: usize) -> (r: bool)
    ensures
        r == (current < max_connections),
{
    current < max_connections
}

/// The TCP connections being served, under the global cap: a connection
/// is admitted only while fewer than the cap are open, so at no moment are
/// more than the cap served.
pub struct ConnSlots {
    active: usize,
    max: usize,
}

impl ConnSlots {
    /// Never more served than the cap.
    #[verifier::type_invariant]
    spec fn within_cap(&self) -> bool {
        self.active <= self.max
    }

    /// Connections being served.
    pub closed spec fn active_count(&self) -> nat {
        self.active as nat
    }

    /// The cap.
    pub closed spec fn cap(&self) -> nat {
        self.max as nat
    }

    /// No connection served yet, under a cap of `max_connections`.
    pub fn new(max_connections: usize) -> (r: Self)
        ensures
            r.active_count() == 0,
            r.cap() == max_connections,
    {
        ConnSlots { active: 0, max: max_connections }
    }

    /// Connections being served now: whatever calls came before, never more
    /// than the cap.
    pub fn active(&self) -> (r: usize)
        ensures
            r == self.active_count(),
            r <= self.cap(),
    {
        proof { use_type_invariant(self); }
        self.active
    }

    /// Admits a new connection when fewer than the cap are served
    /// ([`admit_connection`]), counting it; otherwise changes nothing.
    pub fn try_acquire(&mut self) -> (r: bool)
        ensures
            r == (old(self).active_count() < old(self).cap()),
            final(self).cap() == old(self).cap(),
            final(self).active_count() == (if r { old(self).active_count() + 1 } else { old(self).active_count() }),
            final(self).active_count() <= final(self).cap(),
    {
        proof { use_type_invariant(&*self); }
        if admit_connection(self.active, self.max) {
            self.active = self.active + 1;
            true
        } else {
            false
        }
    }

    /// A served connection has ended (with none being served, nothing
    /// changes).
    pub fn release(&mut self)
        ensures
            final(self).cap() == old(self).cap(),
            final(self).active_count() == (if old(self).active_count() > 0 { old(self).active_count() - 1 } else { 0 }),
            final(self).active_count() <= final(self).cap(),
    {
        proof { use_type_invariant(&*self); }
        if self.active > 0 {
            self.active = self.active - 1;
        }
    }
}

/// Whether a UDP datagram is long enough to carry an RPC call header
/// (20 bytes); shorter ones are ignored.
pub fn udp_request_ok(len: usize) -> (r: bool)
    ensures
        r == (len >= 20),
{
    len >= 20
}

/// Whether a UDP reply may be sent; larger ones are dropped so the server
/// cannot be used to amplify traffic.
pub fn udp_response_ok(len: usize) -> (r: bool)
    ensures
        r == (len <= MAX_UDP_RESPONSE_SIZE),
{
    len <= MAX_UDP_RESPONSE_SIZE
}

/// Whether a TCP connection's pending input stays within bounds; a
/// connection whose buffer grows past it is dropped.
pub fn recv_buffer_ok(len: usize) -> (r: bool)
    ensures
        r == (len <= MAX_RECV_BUF),
{
    len <= MAX_RECV_BUF
}

} // verus!
