//! Animation probing: rendering an animated cursor step by step until its
//! cycle closes, keeping each distinct frame once, in capture order.

use crate::digest::{frame_hash, frame_hash_of, frames_view};
use vstd::prelude::*;

verus! {

/// Most frames a probe keeps.
pub const MAX_ANIM_FRAMES: usize = 120;

/// One probe step: the render of the next step either failed (`None`) or
/// has the given fingerprint. A failure or a fingerprint already seen ends
/// the probe; a new fingerprint is kept.
pub open spec fn probe_step(hashes: Seq<Seq<char>>, r: Option<Seq<char>>) -> (Seq<Seq<char>>, bool) {
    match r {
        None => (hashes, true),
        Some(h) => if hashes.contains(h) {
            (hashes, true)
        } else {
            (hashes.push(h), false)
        },
    }
}

/// Whether the probe asks for another render.
pub open spec fn probe_active(hashes: Seq<Seq<char>>, done: bool) -> bool {
    !done && hashes.len() < MAX_ANIM_FRAMES
}

/// The fingerprints kept, and whether the probe ended, after it is fed
/// `renders` for as long as it asks for more.
pub open spec fn probe_run(hashes: Seq<Seq<char>>, done: bool, renders: Seq<Option<Seq<char>>>) -> (
    Seq<Seq<char>>,
    bool,
)
    decreases renders.len(),
{
    if !probe_active(hashes, done) || renders.len() == 0 {
        (hashes, done)
    } else {
        let (h2, d2) = probe_step(hashes, renders[0]);
        probe_run(h2, d2, renders.drop_first())
    }
}

/// How many renders the probe asks for out of `renders`.
pub open spec fn probe_renders_used(
    hashes: Seq<Seq<char>>,
    done: bool,
    renders: Seq<Option<Seq<char>>>,
) -> nat
    decreases renders.len(),
{
    if !probe_active(hashes, done) || renders.len() == 0 {
        0
    } else {
        let (h2, d2) = probe_step(hashes, renders[0]);
        1 + probe_renders_used(h2, d2, renders.drop_first())
    }
}

/// State of a running probe: the frames kept so far with their
/// fingerprints, and whether it has ended.
pub struct AnimationProbe {
    frames: Vec<Vec<u8>>,
    hashes: Vec<String>,
    done: bool,
}

impl AnimationProbe {
    pub closed spec fn hashes_view(&self) -> Seq<Seq<char>> {
        self.hashes@.map_values(|s: String| s@)
    }

    pub closed spec fn frames_seq(&self) -> Seq<Seq<u8>> {
        frames_view(self.frames@)
    }

    pub closed spec fn is_done(&self) -> bool {
        self.done
    }

    /// Each kept frame's fingerprint stands beside it.
    pub closed spec fn wf(&self) -> bool {
        &&& self.frames@.len() == self.hashes@.len()
        &&& 1 <= self.frames@.len() <= MAX_ANIM_FRAMES
        &&& forall|i: int|
            0 <= i < self.frames@.len() ==> #[trigger] self.hashes@[i]@ == frame_hash_of(
                self.frames@[i]@,
            )
    }

    /// Starts a probe from the frame rendered at step 0.
    pub fn new(first_frame: Vec<u8>) -> (r: Self)
        ensures
            r.wf(),
            r.hashes_view() == seq![frame_hash_of(first_frame@)],
            r.frames_seq() == seq![first_frame@],
            !r.is_done(),
    {
        let h = frame_hash(&first_frame);
        let mut frames: Vec<Vec<u8>> = Vec::new();
        frames.push(first_frame);
        let mut hashes: Vec<String> = Vec::new();
        hashes.push(h);
        let r = AnimationProbe { frames, hashes, done: false };
        assert(r.hashes_view() =~= seq![frame_hash_of(first_frame@)]);
        assert(r.frames_seq() =~= seq![first_frame@]);
        r
    }

    /// The step to render next, while the probe wants one.
    pub fn next_step(&self) -> (r: Option<u32>)
        requires
            self.wf(),
        ensures
            r is Some <==> probe_active(self.hashes_view(), self.is_done()),
            r matches Some(s) ==> s == self.hashes_view().len(),
    {
        if self.done || self.hashes.len() >= MAX_ANIM_FRAMES {
            None
        } else {
            Some(self.hashes.len() as u32)
        }
    }

    /// Feeds the render of the step that `next_step` named: `None` where the
    /// render failed.
    pub fn record(&mut self, frame: Option<Vec<u8>>)
        requires
            old(self).wf(),
            probe_active(old(self).hashes_view(), old(self).is_done()),
        ensures
            final(self).wf(),
            (final(self).hashes_view(), final(self).is_done()) == probe_step(
                old(self).hashes_view(),
                match frame {
                    Some(f) => Some(frame_hash_of(f@)),
                    None => None,
                },
            ),
            final(self).frames_seq() == (match frame {
                Some(f) => if final(self).is_done() {
                    old(self).frames_seq()
                } else {
                    old(self).frames_seq().push(f@)
                },
                None => old(self).frames_seq(),
            }),
    {
        match frame {
            None => {
                self.done = true;
            },
            Some(f) => {
                let h = frame_hash(&f);
                let mut seen = false;
                let mut i: usize = 0;
                while i < self.hashes.len()
                    invariant
                        i <= self.hashes@.len(),
                        seen == exists|j: int| 0 <= j < i && #[trigger] self.hashes@[j]@ == h@,
                    decreases self.hashes@.len() - i,
                {
                    if self.hashes[i] == h {
                        seen = true;
                    }
                    i = i + 1;
                }
                proof {
                    let hv = self.hashes_view();
                    if seen {
                        let j = choose|j: int| 0 <= j < self.hashes@.len() && #[trigger] self.hashes@[j]@ == h@;
                        assert(hv[j] == h@);
                    } else {
                        assert forall|j: int| 0 <= j < hv.len() implies hv[j] != h@ by {
                            assert(self.hashes@[j]@ == hv[j]);
                        }
                    }
                }
                if seen {
                    self.done = true;
                } else {
                    self.frames.push(f);
                    self.hashes.push(h);
                    proof {
                        assert(self.hashes_view() =~= old(self).hashes_view().push(h@));
                        assert(self.frames_seq() =~= old(self).frames_seq().push(f@));
                    }
                }
            },
        }
    }

    /// The frames kept, in capture order.
    pub fn into_frames(self) -> (r: Vec<Vec<u8>>)
        ensures
            frames_view(r@) == self.frames_seq(),
    {
        self.frames
    }
}

/// Probing ends: out of any sequence of renders the probe asks for at most
/// 119 after the first frame, and keeps at most 120 frames.
pub proof fn probe_terminates(first: Seq<char>, renders: Seq<Option<Seq<char>>>)
    ensures
        probe_renders_used(seq![first], false, renders) <= MAX_ANIM_FRAMES - 1,
        probe_run(seq![first], false, renders).0.len() <= MAX_ANIM_FRAMES,
{
    lemma_probe_bounds(seq![first], false, renders);
}

proof fn lemma_probe_bounds(hashes: Seq<Seq<char>>, done: bool, renders: Seq<Option<Seq<char>>>)
    requires
        hashes.len() <= MAX_ANIM_FRAMES,
    ensures
        probe_renders_used(hashes, done, renders) + hashes.len() <= MAX_ANIM_FRAMES,
        probe_run(hashes, done, renders).0.len() <= MAX_ANIM_FRAMES,
    decreases renders.len(),
{
    if !probe_active(hashes, done) || renders.len() == 0 {
    } else {
        let (h2, d2) = probe_step(hashes, renders[0]);
        lemma_probe_bounds(h2, d2, renders.drop_first());
        if d2 {
            assert(probe_renders_used(h2, d2, renders.drop_first()) == 0);
        }
    }
}

/// Whether fingerprints are pairwise distinct.
pub open spec fn all_distinct(s: Seq<Seq<char>>) -> bool {
    forall|i: int, j: int| 0 <= i < j < s.len() ==> s[i] != s[j]
}

/// A cyclic animation of period `N <= 120` whose `N` frames differ: when the
/// render of step `s` shows frame `s % N`, the probe keeps exactly those `N`
/// frames, in order, and asks for the renders of steps 1 to `N` only (1 to
/// 119 where `N` is 120, the most frames it keeps).
pub proof fn probe_finds_cycle(cycle: Seq<Seq<char>>, renders: Seq<Option<Seq<char>>>)
    requires
        1 <= cycle.len() <= MAX_ANIM_FRAMES,
        all_distinct(cycle),
        renders.len() >= MAX_ANIM_FRAMES - 1,
        forall|k: int| 0 <= k < renders.len() ==> #[trigger] renders[k] == Some(cycle[(k + 1) % (cycle.len() as int)]),
    ensures
        probe_run(seq![cycle[0]], false, renders).0 == cycle,
        probe_renders_used(seq![cycle[0]], false, renders) == if cycle.len() < MAX_ANIM_FRAMES {
            cycle.len() as int
        } else {
            MAX_ANIM_FRAMES - 1
        },
{
    assert(cycle.subrange(0, 1) =~= seq![cycle[0]]);
    lemma_cycle_from(cycle, 1, renders);
}

proof fn lemma_cycle_from(cycle: Seq<Seq<char>>, m: int, rs: Seq<Option<Seq<char>>>)
    requires
        1 <= m <= cycle.len() <= MAX_ANIM_FRAMES,
        all_distinct(cycle),
        rs.len() + m >= MAX_ANIM_FRAMES,
        forall|k: int| 0 <= k < rs.len() ==> #[trigger] rs[k] == Some(cycle[(k + m) % (cycle.len() as int)]),
    ensures
        probe_run(cycle.subrange(0, m), false, rs).0 == cycle,
        probe_renders_used(cycle.subrange(0, m), false, rs) == if cycle.len() < MAX_ANIM_FRAMES {
            cycle.len() - m + 1
        } else {
            cycle.len() - m
        },
    decreases cycle.len() - m,
{
    let n = cycle.len() as int;
    let kept = cycle.subrange(0, m);
    if m == n {
        assert(kept =~= cycle);
        if n < MAX_ANIM_FRAMES {
            assert(rs[0] == Some(cycle[m % n]));
            assert(m % n == 0) by {
                vstd::arithmetic::div_mod::lemma_mod_self_0(n);
            }
            assert(kept[0] == cycle[0]);
            assert(kept.contains(cycle[0]));
            assert(probe_step(kept, rs[0]) == (kept, true));
            assert(probe_run(kept, true, rs.drop_first()) == (kept, true));
            assert(probe_renders_used(kept, true, rs.drop_first()) == 0);
        }
    } else {
        assert(rs[0] == Some(cycle[m % n]));
        assert(m % n == m) by {
            vstd::arithmetic::div_mod::lemma_small_mod(m as nat, n as nat);
        }
        assert(!kept.contains(cycle[m])) by {
            if kept.contains(cycle[m]) {
                let j = choose|j: int| 0 <= j < kept.len() && kept[j] == cycle[m];
                assert(cycle[j] == cycle[m]);
            }
        }
        assert(kept.push(cycle[m]) =~= cycle.subrange(0, m + 1));
        let rest = rs.drop_first();
        assert forall|k: int| 0 <= k < rest.len() implies #[trigger] rest[k] == Some(
            cycle[(k + (m + 1)) % n],
        ) by {
            assert(rest[k] == rs[k + 1]);
            assert(k + 1 + m == k + (m + 1));
        }
        lemma_cycle_from(cycle, m + 1, rest);
        assert(probe_step(kept, rs[0]) == (cycle.subrange(0, m + 1), false));
    }
}

} // verus!
