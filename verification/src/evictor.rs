use vstd::prelude::*;

verus! {

/// Chooses which unpinned buffer frame to reuse.
pub trait Evictor {
    /// The evictor's internal state is consistent.
    spec fn wf(&self) -> bool;

    /// The number of frames the evictor knows.
    spec fn frame_count(&self) -> nat;

    /// The frame may be evicted.
    spec fn is_eligible(&self, frame_id: int) -> bool;

    /// The number of frames that may be evicted.
    spec fn eligible_count(&self) -> nat;

    /// The number of frames eligible for eviction.
    fn size(&self) -> (r: usize)
        requires
            self.wf(),
        ensures
            r == self.eligible_count(),
    ;

    /// Makes an unpinned frame eligible for eviction.
    fn unpin(&mut self, frame_id: usize)
        requires
            old(self).wf(),
            frame_id < old(self).frame_count(),
        ensures
            final(self).wf(),
            final(self).frame_count() == old(self).frame_count(),
            forall|f: int| #[trigger] final(self).is_eligible(f) == (old(self).is_eligible(f) || f == frame_id),
            final(self).eligible_count() == old(self).eligible_count() + if old(self).is_eligible(
                frame_id as int,
            ) {
                0nat
            } else {
                1nat
            },
    ;

    /// Makes a frame ineligible for eviction, as when a user pins it again.
    fn remove(&mut self, frame_id: usize)
        requires
            old(self).wf(),
            frame_id < old(self).frame_count(),
        ensures
            final(self).wf(),
            final(self).frame_count() == old(self).frame_count(),
            forall|f: int| #[trigger] final(self).is_eligible(f) == (old(self).is_eligible(f) && f != frame_id),
            final(self).eligible_count() == old(self).eligible_count() - if old(self).is_eligible(
                frame_id as int,
            ) {
                1int
            } else {
                0int
            },
    ;

    /// Evicts a frame and returns its ID; `None` when no frame is eligible.
    fn victim(&mut self) -> (r: Option<usize>)
        requires
            old(self).wf(),
        ensures
            final(self).wf(),
            final(self).frame_count() == old(self).frame_count(),
            r is None ==> forall|f: int| 0 <= f < old(self).frame_count() ==> !#[trigger] old(self).is_eligible(f),
            r is None ==> final(self).eligible_count() == old(self).eligible_count(),
            r is None ==> forall|f: int| #[trigger] final(self).is_eligible(f) == old(self).is_eligible(f),
            r matches Some(v) ==> v < old(self).frame_count() && old(self).is_eligible(v as int),
            r matches Some(v) ==> final(self).eligible_count() == old(self).eligible_count() - 1,
            r matches Some(v) ==> forall|f: int| #[trigger] final(self).is_eligible(f) == (old(self).is_eligible(f) && f != v),
    ;
}

/// The number of `true` entries.
pub open spec fn count_true(s: Seq<bool>) -> nat
    decreases s.len(),
{
    if s.len() == 0 {
        0
    } else {
        count_true(s.drop_last()) + if s.last() {
            1nat
        } else {
            0nat
        }
    }
}

pub proof fn lemma_count_true_update(s: Seq<bool>, i: int, v: bool)
    requires
        0 <= i < s.len(),
    ensures
        count_true(s.update(i, v)) == count_true(s) - (if s[i] { 1int } else { 0int }) + (if v { 1int } else { 0int }),
    decreases s.len(),
{
    if i < s.len() - 1 {
        lemma_count_true_update(s.drop_last(), i, v);
        assert(s.update(i, v).drop_last() =~= s.drop_last().update(i, v));
    } else {
        assert(s.update(i, v).drop_last() =~= s.drop_last());
        if s.len() > 1 {
            lemma_count_true_update(s.drop_last(), 0, s[0]);
        }
    }
}

pub proof fn lemma_count_true_bound(s: Seq<bool>)
    ensures
        count_true(s) <= s.len(),
    decreases s.len(),
{
    if s.len() > 0 {
        lemma_count_true_bound(s.drop_last());
    }
}

/// The state of the clock sweep: where the hand points, and for each frame whether it may be
/// evicted and whether it still has its second chance (set each time the frame is unpinned).
pub struct ClockEvictorState {
    pub clock_hand: usize,
    pub second_chances: Vec<bool>,
    pub is_in_evictor: Vec<bool>,
    pub size: usize,
}

impl ClockEvictorState {
    /// The lists have one entry per frame, the hand points at a frame (or there is none), and
    /// `size` counts the eligible frames.
    pub open spec fn wf(&self) -> bool {
        &&& self.second_chances@.len() == self.is_in_evictor@.len()
        &&& (self.clock_hand < self.is_in_evictor@.len() || (self.clock_hand == 0 && self.is_in_evictor@.len() == 0))
        &&& self.size == count_true(self.is_in_evictor@)
    }

    /// How many steps the hand takes from its position to frame `i`, going round.
    pub open spec fn distance(&self, i: int) -> int {
        if i >= self.clock_hand {
            i - self.clock_hand
        } else {
            i + self.is_in_evictor@.len() - self.clock_hand
        }
    }

    /// Frame `f` is the one the sweep takes: the first eligible frame without a second chance
    /// from the hand on or, when every eligible frame has one, the first eligible frame.
    pub open spec fn is_clock_victim(&self, f: int) -> bool {
        let e = self.is_in_evictor@;
        let c = self.second_chances@;
        &&& 0 <= f < e.len()
        &&& e[f]
        &&& if !c[f] {
            forall|i: int| 0 <= i < e.len() && e[i] && self.distance(i) < self.distance(f) ==> #[trigger] c[i]
        } else {
            (forall|i: int| 0 <= i < e.len() && e[i] ==> #[trigger] c[i]) && forall|i: int|
                0 <= i < e.len() && e[i] ==> self.distance(f) <= #[trigger] self.distance(i)
        }
    }

    /// The second chances after a sweep that took frame `f`: the frames passed over lost
    /// theirs (every eligible frame, when all had one).
    pub open spec fn second_chances_after(&self, f: int) -> Seq<bool> {
        let e = self.is_in_evictor@;
        let c = self.second_chances@;
        let stop = if c[f] {
            e.len() as int
        } else {
            self.distance(f)
        };
        Seq::new(c.len(), |i: int| if e[i] && self.distance(i) < stop { false } else { c[i] })
    }
}

/// The clock replacement policy: a hand sweeps the frames round; an eligible frame with its
/// second chance loses it and is passed over, one without is evicted.
pub struct ClockEvictor {
    pub state: ClockEvictorState,
}

impl ClockEvictor {
    /// An evictor for `pool_size` frames, none of them eligible.
    pub fn new(pool_size: usize) -> (r: Self)
        ensures
            r.state.wf(),
            r.state.clock_hand == 0,
            r.state.is_in_evictor@ == Seq::new(pool_size as nat, |i: int| false),
            r.state.second_chances@ == Seq::new(pool_size as nat, |i: int| false),
    {
        let mut is_in_evictor: Vec<bool> = Vec::new();
        let mut second_chances: Vec<bool> = Vec::new();
        let mut i: usize = 0;
        while i < pool_size
            invariant
                0 <= i <= pool_size,
                is_in_evictor@ == Seq::new(i as nat, |k: int| false),
                second_chances@ == Seq::new(i as nat, |k: int| false),
                count_true(is_in_evictor@) == 0,
            decreases pool_size - i,
        {
            proof {
                assert(is_in_evictor@.push(false).drop_last() =~= is_in_evictor@);
            }
            is_in_evictor.push(false);
            second_chances.push(false);
            i = i + 1;
            proof {
                assert(is_in_evictor@ =~= Seq::new(i as nat, |k: int| false));
                assert(second_chances@ =~= Seq::new(i as nat, |k: int| false));
            }
        }
        ClockEvictor { state: ClockEvictorState { clock_hand: 0, is_in_evictor, second_chances, size: 0 } }
    }

    /// One step of the sweep at frame `i`: evicts it if eligible without a second chance,
    /// else takes away its second chance if it is eligible.
    fn sweep_step(&mut self, i: usize) -> (r: bool)
        requires
            old(self).state.wf(),
            i < old(self).state.is_in_evictor@.len(),
        ensures
            final(self).state.wf(),
            final(self).state.clock_hand == old(self).state.clock_hand,
            r == (old(self).state.is_in_evictor@[i as int] && !old(self).state.second_chances@[i as int]),
            r ==> final(self).state.is_in_evictor@ == old(self).state.is_in_evictor@.update(i as int, false)
                && final(self).state.second_chances@ == old(self).state.second_chances@,
            !r ==> final(self).state.is_in_evictor@ == old(self).state.is_in_evictor@
                && final(self).state.second_chances@ == (if old(self).state.is_in_evictor@[i as int] {
                old(self).state.second_chances@.update(i as int, false)
            } else {
                old(self).state.second_chances@
            }),
    {
        if self.state.is_in_evictor[i] {
            if !self.state.second_chances[i] {
                proof {
                    lemma_count_true_update(self.state.is_in_evictor@, i as int, false);
                }
                self.state.is_in_evictor.set(i, false);
                self.state.size = self.state.size - 1;
                return true;
            } else {
                self.state.second_chances.set(i, false);
            }
        }
        false
    }
}

impl Evictor for ClockEvictor {
    open spec fn wf(&self) -> bool {
        self.state.wf()
    }

    open spec fn frame_count(&self) -> nat {
        self.state.is_in_evictor@.len()
    }

    open spec fn is_eligible(&self, frame_id: int) -> bool {
        0 <= frame_id < self.state.is_in_evictor@.len() && self.state.is_in_evictor@[frame_id]
    }

    open spec fn eligible_count(&self) -> nat {
        count_true(self.state.is_in_evictor@)
    }

    fn size(&self) -> (r: usize) {
        self.state.size
    }

    /// Also gives the frame its second chance, whether or not it was eligible before.
    fn unpin(&mut self, frame_id: usize)
        ensures
            final(self).state.clock_hand == old(self).state.clock_hand,
            final(self).state.second_chances@ == old(self).state.second_chances@.update(frame_id as int, true),
            final(self).state.is_in_evictor@ == old(self).state.is_in_evictor@.update(frame_id as int, true),
    {
        let pool_size = self.state.is_in_evictor.len();
        if !self.state.is_in_evictor[frame_id] {
            proof {
                lemma_count_true_update(self.state.is_in_evictor@, frame_id as int, true);
                lemma_count_true_bound(self.state.is_in_evictor@.update(frame_id as int, true));
            }
            self.state.is_in_evictor.set(frame_id, true);
            self.state.size = self.state.size + 1;
        } else {
            proof {
                assert(self.state.is_in_evictor@.update(frame_id as int, true) =~= self.state.is_in_evictor@);
            }
        }
        self.state.second_chances.set(frame_id, true);
    }

    /// Leaves the hand and the second chances as they are.
    fn remove(&mut self, frame_id: usize)
        ensures
            final(self).state.clock_hand == old(self).state.clock_hand,
            final(self).state.second_chances@ == old(self).state.second_chances@,
            final(self).state.is_in_evictor@ == old(self).state.is_in_evictor@.update(frame_id as int, false),
    {
        if self.state.is_in_evictor[frame_id] {
            proof {
                lemma_count_true_update(self.state.is_in_evictor@, frame_id as int, false);
            }
            self.state.is_in_evictor.set(frame_id, false);
            self.state.size = self.state.size - 1;
        } else {
            proof {
                assert(self.state.is_in_evictor@.update(frame_id as int, false) =~= self.state.is_in_evictor@);
            }
        }
    }

    /// Sweeps at most twice round from the hand (which stays where it is): the frame taken is
    /// the one of `is_clock_victim`, and the frames passed over lose their second chance.
    fn victim(&mut self) -> (r: Option<usize>)
        ensures
            final(self).state.clock_hand == old(self).state.clock_hand,
            r matches Some(f) ==> old(self).state.is_clock_victim(f as int) && final(self).state.second_chances@
                == old(self).state.second_chances_after(f as int),
            r is None ==> final(self).state.second_chances@ == old(self).state.second_chances@,
    {
        let ghost s0 = self.state;
        let ghost e = self.state.is_in_evictor@;
        let ghost c0 = self.state.second_chances@;
        let len = self.state.is_in_evictor.len();
        let hand = self.state.clock_hand;
        let mut t: usize = 0;
        proof {
            assert(self.state.second_chances@ =~= Seq::new(
                len as nat,
                |i: int| if e[i] && s0.distance(i) < 0 { false } else { c0[i] },
            ));
        }
        while t < len
            invariant
                self.state.wf(),
                len == e.len(),
                self.state.clock_hand == hand,
                hand == s0.clock_hand,
                s0 == old(self).state,
                s0.wf(),
                e == s0.is_in_evictor@,
                c0 == s0.second_chances@,
                self.state.is_in_evictor@ == e,
                0 <= t <= len,
                forall|i: int| 0 <= i < len && e[i] && s0.distance(i) < t ==> #[trigger] c0[i],
                self.state.second_chances@ == Seq::new(
                    len as nat,
                    |i: int| if e[i] && s0.distance(i) < t { false } else { c0[i] },
                ),
            decreases len - t,
        {
            let i = if t < len - hand {
                hand + t
            } else {
                t - (len - hand)
            };
            assert(s0.distance(i as int) == t);
            if self.sweep_step(i) {
                proof {
                    assert(self.state.second_chances@ =~= s0.second_chances_after(i as int));
                    lemma_count_true_update(e, i as int, false);
                }
                return Some(i);
            }
            t = t + 1;
            proof {
                assert(self.state.second_chances@ =~= Seq::new(
                    len as nat,
                    |k: int| if e[k] && s0.distance(k) < t { false } else { c0[k] },
                ));
            }
        }
        let mut t: usize = 0;
        while t < len
            invariant
                self.state.wf(),
                len == e.len(),
                self.state.clock_hand == hand,
                hand == s0.clock_hand,
                s0 == old(self).state,
                s0.wf(),
                e == s0.is_in_evictor@,
                c0 == s0.second_chances@,
                self.state.is_in_evictor@ == e,
                0 <= t <= len,
                forall|i: int| 0 <= i < len && e[i] ==> #[trigger] c0[i],
                forall|i: int| 0 <= i < len && e[i] ==> t <= #[trigger] s0.distance(i),
                self.state.second_chances@ == Seq::new(len as nat, |i: int| if e[i] { false } else { c0[i] }),
            decreases len - t,
        {
            let i = if t < len - hand {
                hand + t
            } else {
                t - (len - hand)
            };
            assert(s0.distance(i as int) == t);
            if self.sweep_step(i) {
                proof {
                    assert(self.state.second_chances@ =~= s0.second_chances_after(i as int));
                    lemma_count_true_update(e, i as int, false);
                }
                return Some(i);
            }
            t = t + 1;
        }
        proof {
            assert forall|i: int| 0 <= i < len implies !e[i] by {
                if e[i] {
                    assert(s0.distance(i) < len);
                }
            }
            assert(self.state.second_chances@ =~= c0);
        }
        None
    }
}

} // verus!
