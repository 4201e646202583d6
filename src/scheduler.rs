//! Arbitration of turns between cores: free running, round robin, or a
//! pseudo-random choice among the cores still running.
use vstd::prelude::*;

use crate::interrupts::MAX_CORES;

verus! {

#[derive(Clone, Copy, Debug, PartialEq, Eq, Structural)]
pub enum SchedMode {
    /// Every core runs whenever it likes.
    Free,
    /// One core per turn, in order, skipping halted cores.
    RoundRobin,
    /// One core per turn, chosen pseudo-randomly among running cores.
    Random,
}

/// Core `cur + j` counted cyclically among `n` cores (j <= n).
pub open spec fn cyclic(cur: int, j: int, n: int) -> int {
    if cur + j >= n { cur + j - n } else { cur + j }
}

/// How many steps forward core `t` lies from core `cur`.
pub open spec fn distance(cur: int, t: int, n: int) -> int {
    if t >= cur { t - cur } else { t + n - cur }
}

/// The first core that is not halted at or after `j` steps forward from
/// `cur` (up to `n` steps).
pub open spec fn next_runnable(halted: Seq<bool>, cur: int, j: int) -> Option<int>
    decreases halted.len() + 1 - j,
{
    if j > halted.len() || j < 1 {
        None
    } else if !halted[cyclic(cur, j, halted.len() as int)] {
        Some(cyclic(cur, j, halted.len() as int))
    } else {
        next_runnable(halted, cur, j + 1)
    }
}

/// The core whose turn comes after `cur`'s in round-robin order.
pub open spec fn rr_turn(halted: Seq<bool>, cur: int) -> int {
    match next_runnable(halted, cur, 1) {
        Some(c) => c,
        None => cur,
    }
}

/// The core that holds the turn `k` turns after `cur`'s.
pub open spec fn rr_turns(halted: Seq<bool>, cur: int, k: nat) -> int
    decreases k,
{
    if k == 0 { cur } else { rr_turns(halted, rr_turn(halted, cur), (k - 1) as nat) }
}

/// Whether every entry of `s` is set.
pub open spec fn all_set(s: Seq<bool>) -> bool {
    forall|c: int| 0 <= c < s.len() ==> #[trigger] s[c]
}

pub struct Scheduler {
    mode: SchedMode,
    halted: Vec<bool>,
    next_core: usize,
    done: bool,
    seed: u64,
}

/// The searched core is found no later than a running core at distance
/// `dist`.
proof fn lemma_next_within(halted: Seq<bool>, cur: int, j: int, dist: int)
    requires
        0 <= cur < halted.len(),
        1 <= j <= dist < halted.len(),
        !halted[cyclic(cur, dist, halted.len() as int)],
    ensures
        next_runnable(halted, cur, j) matches Some(c) && exists|k: int| j <= k <= dist && c == cyclic(cur, k, halted.len() as int),
    decreases dist - j,
{
    if halted[cyclic(cur, j, halted.len() as int)] {
        lemma_next_within(halted, cur, j + 1, dist);
    } else {
        assert(j <= j <= dist);
    }
}

/// From any core, round robin reaches running core `t` within
/// `distance(cur, t)` turns.
proof fn lemma_reaches(halted: Seq<bool>, cur: int, t: int)
    requires
        0 <= cur < halted.len(),
        0 <= t < halted.len(),
        !halted[t],
    ensures
        exists|k: nat| k <= distance(cur, t, halted.len() as int) && rr_turns(halted, cur, k) == t,
    decreases distance(cur, t, halted.len() as int),
{
    let n = halted.len() as int;
    if cur == t {
        assert(rr_turns(halted, cur, 0) == t);
    } else {
        let d = distance(cur, t, n);
        assert(cyclic(cur, d, n) == t);
        lemma_next_within(halted, cur, 1, d);
        let c = rr_turn(halted, cur);
        let j = choose|k: int| 1 <= k <= d && c == cyclic(cur, k, n);
        assert(distance(c, t, n) == d - j);
        lemma_reaches(halted, c, t);
        let k = choose|k: nat| k <= distance(c, t, n) && rr_turns(halted, c, k) == t;
        assert(rr_turns(halted, cur, k + 1) == rr_turns(halted, c, k));
    }
}

/// Round robin is fair: while the halted cores stay the same, every core
/// that is not halted holds one of any `n` consecutive turns.
pub proof fn lemma_round_robin_fair(halted: Seq<bool>, cur: int, t: int)
    requires
        0 <= cur < halted.len(),
        0 <= t < halted.len(),
        !halted[t],
    ensures
        exists|k: nat| k < halted.len() && rr_turns(halted, cur, k) == t,
{
    lemma_reaches(halted, cur, t);
}

impl Scheduler {
    pub closed spec fn wf(&self) -> bool {
        &&& 1 <= self.halted@.len() <= MAX_CORES
        &&& self.next_core < self.halted@.len()
    }

    pub closed spec fn mode_of(&self) -> SchedMode {
        self.mode
    }

    pub closed spec fn halted_view(&self) -> Seq<bool> {
        self.halted@
    }

    /// The core whose turn it is (in the turn-taking modes).
    pub closed spec fn current(&self) -> int {
        self.next_core as int
    }

    pub closed spec fn is_done(&self) -> bool {
        self.done
    }

    pub closed spec fn seed_of(&self) -> u64 {
        self.seed
    }

    /// A scheduler of `cores` running cores; core 0 has the first turn.
    pub fn new(mode: SchedMode, cores: usize, seed: u64) -> (r: Scheduler)
        requires
            1 <= cores <= MAX_CORES,
        ensures
            r.wf(),
            r.mode_of() == mode,
            r.halted_view() == Seq::new(cores as nat, |i: int| false),
            r.current() == 0,
            !r.is_done(),
            r.seed_of() == seed,
    {
        let r = Scheduler { mode, halted: vec![false; cores], next_core: 0, done: false, seed };
        assert(r.halted_view() =~= Seq::new(cores as nat, |i: int| false));
        r
    }

    /// Whether `core` may run a tick now.
    pub fn may_run(&self, core: usize) -> (r: bool)
        ensures
            r == (!self.is_done() && (self.mode_of() == SchedMode::Free || self.current() == core)),
    {
        !self.done && (matches!(self.mode, SchedMode::Free) || self.next_core == core)
    }

    pub fn done(&self) -> (r: bool)
        ensures
            r == self.is_done(),
    {
        self.done
    }

    /// Ends the run.
    pub fn stop(&mut self)
        ensures
            final(self).is_done(),
            final(self).halted_view() == old(self).halted_view(),
            final(self).current() == old(self).current(),
            old(self).wf() ==> final(self).wf(),
    {
        self.done = true;
    }

    /// Records that `core` halted; when every core has, the run is done.
    pub fn mark_halted(&mut self, core: usize)
        requires
            old(self).wf(),
            core < old(self).halted_view().len(),
        ensures
            final(self).wf(),
            final(self).halted_view() == old(self).halted_view().update(core as int, true),
            final(self).current() == old(self).current(),
            final(self).mode_of() == old(self).mode_of(),
            final(self).is_done() == (old(self).is_done() || all_set(final(self).halted_view())),
    {
        self.halted.set(core, true);
        let mut all = true;
        let mut i: usize = 0;
        while i < self.halted.len()
            invariant
                i <= self.halted@.len(),
                all == forall|c: int| 0 <= c < i ==> #[trigger] self.halted@[c],
                core < old(self).halted_view().len(),
                self.halted@ == old(self).halted_view().update(core as int, true),
                self.done == old(self).done,
                self.mode == old(self).mode,
                self.next_core == old(self).next_core,
            decreases self.halted@.len() - i,
        {
            if !self.halted[i] {
                all = false;
            }
            i += 1;
        }
        assert(all == all_set(self.halted@));
        if all {
            self.done = true;
        }
    }

    /// Ends the current turn: the next core is the next running one in
    /// order (round robin), or a pseudo-random running one (random);
    /// with no running core left the run is done.
    pub fn finish_turn(&mut self)
        requires
            old(self).wf(),
        ensures
            final(self).wf(),
            final(self).halted_view() == old(self).halted_view(),
            final(self).mode_of() == old(self).mode_of(),
            old(self).mode_of() == SchedMode::Free ==> *final(self) == *old(self),
            old(self).mode_of() != SchedMode::Free ==> {
                let n = old(self).halted_view();
                match next_runnable(n, old(self).current(), 1) {
                    None => final(self).is_done(),
                    Some(c) => {
                        &&& final(self).is_done() == old(self).is_done()
                        &&& !n[final(self).current()]
                        &&& old(self).mode_of() == SchedMode::RoundRobin ==> final(self).current() == c
                    },
                }
            },
    {
        if matches!(self.mode, SchedMode::Free) {
            return;
        }
        let found = self.find_next();
        match found {
            None => {
                self.done = true;
            },
            Some(first) => {
                if matches!(self.mode, SchedMode::RoundRobin) {
                    self.next_core = first;
                } else {
                    self.seed = self.seed.wrapping_mul(6364136223846793005).wrapping_add(1442695040888963407);
                    self.next_core = self.pick_running((self.seed >> 33u64) as usize, first);
                }
            },
        }
    }

    /// The next running core after the current one, in order.
    fn find_next(&self) -> (r: Option<usize>)
        requires
            self.wf(),
        ensures
            match r {
                Some(c) => next_runnable(self.halted@, self.next_core as int, 1) == Some(c as int) && c < self.halted@.len()
                    && !self.halted@[c as int],
                None => next_runnable(self.halted@, self.next_core as int, 1) is None,
            },
    {
        let n = self.halted.len();
        let cur = self.next_core;
        let mut j: usize = 1;
        while j <= n
            invariant
                n == self.halted@.len(),
                1 <= n <= MAX_CORES,
                cur == self.next_core,
                cur < n,
                1 <= j <= n + 1,
                next_runnable(self.halted@, cur as int, 1) == next_runnable(self.halted@, cur as int, j as int),
            decreases n + 1 - j,
        {
            let c = if cur + j >= n { cur + j - n } else { cur + j };
            if !self.halted[c] {
                return Some(c);
            }
            j += 1;
        }
        None
    }

    /// The `k`-th running core (counting cyclically), given that `fallback`
    /// is running.
    fn pick_running(&self, k: usize, fallback: usize) -> (r: usize)
        requires
            self.wf(),
            fallback < self.halted@.len(),
            !self.halted@[fallback as int],
        ensures
            r < self.halted@.len(),
            !self.halted@[r as int],
    {
        let n = self.halted.len();
        let mut count: usize = 0;
        let mut i: usize = 0;
        while i < n
            invariant
                n == self.halted@.len(),
                i <= n,
                count <= i,
            decreases n - i,
        {
            if !self.halted[i] {
                count += 1;
            }
            i += 1;
        }
        if count == 0 {
            return fallback;
        }
        let target = k % count;
        let mut seen: usize = 0;
        let mut i: usize = 0;
        while i < n
            invariant
                n == self.halted@.len(),
                i <= n,
                seen <= i,
            decreases n - i,
        {
            if !self.halted[i] {
                if seen == target {
                    return i;
                }
                seen += 1;
            }
            i += 1;
        }
        fallback
    }
}

} // verus!
