use std::collections::HashMap;
use vstd::prelude::*;

verus! {

broadcast use vstd::std_specs::hash::group_hash_axioms;

/// Time elapsed from `t` to `now`, zero when `t` is later.
pub open spec fn age(now: u64, t: u64) -> nat {
    if now >= t {
        (now - t) as nat
    } else {
        0
    }
}

/// The events of `s` that are still inside the window at `now`, in order.
pub open spec fn pruned(s: Seq<u64>, now: u64, window: u64) -> Seq<u64>
    decreases s.len(),
{
    if s.len() == 0 {
        s
    } else {
        let p = pruned(s.drop_last(), now, window);
        if age(now, s.last()) < window {
            p.push(s.last())
        } else {
            p
        }
    }
}

/// One rate-limited event at `now`: whether it is allowed, and the history after it.
pub open spec fn check_step(h: Seq<u64>, now: u64, max: nat, window: u64) -> (bool, Seq<u64>) {
    let live = pruned(h, now, window);
    if live.len() >= max {
        (false, live)
    } else {
        (true, live.push(now))
    }
}

/// Per-source sliding-window limiter: at most `max_per_window` events per
/// source within any `window_ms` milliseconds.
pub struct RateLimiter {
    events: HashMap<u128, Vec<u64>>,
    max_per_window: usize,
    window_ms: u64,
}

fn prune(events: &Vec<u64>, now: u64, window: u64) -> (r: Vec<u64>)
    ensures
        r@ == pruned(events@, now, window),
{
    let mut out: Vec<u64> = Vec::new();
    let mut i: usize = 0;
    while i < events.len()
        invariant
            i <= events@.len(),
            out@ == pruned(events@.subrange(0, i as int), now, window),
        decreases events@.len() - i,
    {
        let t = events[i];
        let elapsed = if now >= t {
            now - t
        } else {
            0
        };
        assert(events@.subrange(0, i + 1).drop_last() =~= events@.subrange(0, i as int));
        if elapsed < window {
            out.push(t);
        }
        i = i + 1;
    }
    assert(events@.subrange(0, events@.len() as int) =~= events@);
    out
}

impl RateLimiter {
    pub closed spec fn max(&self) -> nat {
        self.max_per_window as nat
    }

    pub closed spec fn window(&self) -> u64 {
        self.window_ms
    }

    /// The recorded events of `source`, oldest first.
    pub closed spec fn history(&self, source: u128) -> Seq<u64> {
        if self.events@.contains_key(source) {
            self.events@[source]@
        } else {
            Seq::empty()
        }
    }

    pub fn new(max_per_window: usize, window_ms: u64) -> (r: RateLimiter)
        ensures
            r.max() == max_per_window,
            r.window() == window_ms,
            forall|s: u128| #[trigger] r.history(s) == Seq::<u64>::empty(),
    {
        RateLimiter { events: HashMap::new(), max_per_window, window_ms }
    }

    fn take_live(&mut self, source: u128, now: u64) -> (r: Vec<u64>)
        ensures
            r@ == pruned(old(self).history(source), now, old(self).window()),
            final(self).max() == old(self).max(),
            final(self).window() == old(self).window(),
            forall|s: u128| s != source ==> #[trigger] final(self).history(s) == old(self).history(s),
    {
        let hist = match self.events.remove(&source) {
            Some(v) => v,
            None => Vec::new(),
        };
        assert(hist@ == old(self).history(source));
        prune(&hist, now, self.window_ms)
    }

    /// Allows and records an event of `source` at `now` when fewer than the
    /// limit of its events fall inside the window; refuses it otherwise.
    pub fn check(&mut self, source: u128, now: u64) -> (r: bool)
        ensures
            (r, final(self).history(source)) == check_step(
                old(self).history(source),
                now,
                old(self).max(),
                old(self).window(),
            ),
            final(self).max() == old(self).max(),
            final(self).window() == old(self).window(),
            forall|s: u128| s != source ==> #[trigger] final(self).history(s) == old(self).history(s),
    {
        let mut live = self.take_live(source, now);
        let allowed = live.len() < self.max_per_window;
        if allowed {
            live.push(now);
        }
        let ghost mid = *self;
        self.events.insert(source, live);
        assert forall|s: u128| s != source implies #[trigger] self.history(s) == mid.history(s) by {
            assert(self.events@.contains_key(s) == mid.events@.contains_key(s));
        }
        allowed
    }

    /// Whether an event of `source` at `now` would be allowed, without recording one.
    pub fn is_allowed(&mut self, source: u128, now: u64) -> (r: bool)
        ensures
            r == (pruned(old(self).history(source), now, old(self).window()).len()
                < old(self).max()),
            final(self).history(source) == pruned(
                old(self).history(source),
                now,
                old(self).window(),
            ),
            final(self).max() == old(self).max(),
            final(self).window() == old(self).window(),
            forall|s: u128| s != source ==> #[trigger] final(self).history(s) == old(self).history(s),
    {
        let live = self.take_live(source, now);
        let allowed = live.len() < self.max_per_window;
        let ghost mid = *self;
        self.events.insert(source, live);
        assert forall|s: u128| s != source implies #[trigger] self.history(s) == mid.history(s) by {
            assert(self.events@.contains_key(s) == mid.events@.contains_key(s));
        }
        allowed
    }

    /// Records an event of `source` at `now` whatever the limit.
    pub fn record(&mut self, source: u128, now: u64)
        ensures
            final(self).history(source) == pruned(
                old(self).history(source),
                now,
                old(self).window(),
            ).push(now),
            final(self).max() == old(self).max(),
            final(self).window() == old(self).window(),
            forall|s: u128| s != source ==> #[trigger] final(self).history(s) == old(self).history(s),
    {
        let mut live = self.take_live(source, now);
        live.push(now);
        let ghost mid = *self;
        self.events.insert(source, live);
        assert forall|s: u128| s != source implies #[trigger] self.history(s) == mid.history(s) by {
            assert(self.events@.contains_key(s) == mid.events@.contains_key(s));
        }
    }
}

/// Results and history of a run of checks at times `ts`, from an empty history.
pub open spec fn run_checks(ts: Seq<u64>, max: nat, window: u64) -> (Seq<bool>, Seq<u64>)
    decreases ts.len(),
{
    if ts.len() == 0 {
        (Seq::empty(), Seq::empty())
    } else {
        let (rs, h) = run_checks(ts.drop_last(), max, window);
        let (ok, h2) = check_step(h, ts.last(), max, window);
        (rs.push(ok), h2)
    }
}

proof fn lemma_pruned_keeps_live(s: Seq<u64>, now: u64, window: u64)
    requires
        forall|i: int| 0 <= i < s.len() ==> age(now, #[trigger] s[i]) < window,
    ensures
        pruned(s, now, window) == s,
    decreases s.len(),
{
    if s.len() > 0 {
        lemma_pruned_keeps_live(s.drop_last(), now, window);
        assert(s.drop_last().push(s.last()) =~= s);
    }
}

proof fn lemma_run_checks_inner(ts: Seq<u64>, max: nat, window: u64)
    requires
        ts.len() > 0,
        forall|i: int, j: int| 0 <= i <= j < ts.len() ==> ts[i] <= ts[j],
        ts.last() - ts[0] < window,
    ensures
        run_checks(ts, max, window).0.len() == ts.len(),
        forall|i: int| 0 <= i < ts.len() ==> #[trigger] run_checks(ts, max, window).0[i] == (i < max),
        run_checks(ts, max, window).1 == ts.subrange(
            0,
            if ts.len() < max {
                ts.len() as int
            } else {
                max as int
            },
        ),
    decreases ts.len(),
{
    let prev = ts.drop_last();
    let now = ts.last();
    if prev.len() == 0 {
        assert(pruned(Seq::<u64>::empty(), now, window) == Seq::<u64>::empty());
        if max == 0 {
            assert(ts.subrange(0, 0) =~= Seq::<u64>::empty());
        } else {
            assert(ts.subrange(0, 1) =~= Seq::<u64>::empty().push(now));
        }
    } else {
        assert(prev.last() == ts[prev.len() - 1]);
        lemma_run_checks_inner(prev, max, window);
        let h = run_checks(prev, max, window).1;
        assert forall|i: int| 0 <= i < h.len() implies age(now, #[trigger] h[i]) < window by {
            assert(h[i] == ts[i]);
        }
        lemma_pruned_keeps_live(h, now, window);
        let k = if ts.len() < max {
            ts.len() as int
        } else {
            max as int
        };
        if prev.len() < max {
            assert(h.push(now) =~= ts.subrange(0, k));
        } else {
            assert(h =~= ts.subrange(0, k));
        }
        let rs = run_checks(ts, max, window).0;
        assert forall|i: int| 0 <= i < ts.len() implies #[trigger] rs[i] == (i < max) by {
            if i < prev.len() {
                assert(rs[i] == run_checks(prev, max, window).0[i]);
            }
        }
    }
}

/// From a clean history, a burst of events that all fall inside one window
/// (times in order, first to last less than the window apart) has its first
/// `max` events allowed and every later one refused.
pub proof fn lemma_burst_limit(ts: Seq<u64>, max: nat, window: u64)
    requires
        ts.len() > 0,
        forall|i: int, j: int| 0 <= i <= j < ts.len() ==> ts[i] <= ts[j],
        ts.last() - ts[0] < window,
    ensures
        forall|i: int| 0 <= i < ts.len() ==> #[trigger] run_checks(ts, max, window).0[i] == (i < max),
{
    lemma_run_checks_inner(ts, max, window);
}

} // verus!
