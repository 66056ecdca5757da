//! The reflection-sampling schedule of one traced ray.
//!
//! A trace keeps a work list of incident rays, seeded with the primary ray at
//! depth 0. Each incident is tested against the scene by the caller, who
//! reports a miss or a hit. On a hit in the single-sample view modes the trace
//! stops; in the others the hit spawns a fixed fan-out of reflection rays one
//! level deeper (until the depth limit) and casts one shadow ray. The sampler
//! makes every one of these decisions and keeps the statistics; the caller
//! does the geometry and the color arithmetic.
use vstd::prelude::*;
use crate::trace_stats::{zero_stats, TraceStats};
use crate::view_mode::ViewMode;

verus! {

/// How many times a ray may be reflected after the primary one.
pub const REFLECTION_DEPTH: usize = 2;

/// How many reflection rays one hit spawns below the depth limit.
pub const REFLECTION_COUNT: usize = 2;

/// The most samples one primary ray can lead to: 1 + 2 + 4.
pub const MAX_SAMPLE_COUNT: usize = 7;

/// How many rays one incident at `depth` can lead to, itself included.
pub open spec fn reach(depth: nat) -> nat
    decreases REFLECTION_DEPTH - depth,
{
    if depth >= REFLECTION_DEPTH {
        1
    } else {
        1 + (REFLECTION_COUNT as nat) * reach(depth + 1)
    }
}

/// Sum of `count` to the powers 0 through `depth`.
pub open spec fn geometric_total(count: nat, depth: nat) -> nat
    decreases depth,
{
    if depth == 0 {
        1
    } else {
        geometric_total(count, (depth - 1) as nat) + pow_nat(count, depth)
    }
}

pub open spec fn pow_nat(base: nat, exp: nat) -> nat
    decreases exp,
{
    if exp == 0 {
        1
    } else {
        base * pow_nat(base, (exp - 1) as nat)
    }
}

/// `MAX_SAMPLE_COUNT` is the size of the full reflection tree: the primary
/// ray and `REFLECTION_COUNT` to the power `d` rays at each depth `d` up to
/// `REFLECTION_DEPTH`.
pub proof fn lemma_max_sample_count()
    ensures
        reach(0) == MAX_SAMPLE_COUNT,
        geometric_total(REFLECTION_COUNT as nat, REFLECTION_DEPTH as nat) == MAX_SAMPLE_COUNT,
{
    assert(reach(2) == 1);
    assert(reach(1) == 3);
    assert(reach(0) == 7);
    reveal_with_fuel(pow_nat, 3);
    reveal_with_fuel(geometric_total, 3);
}

/// A ray waiting on the work list, with how many reflections led to it.
#[derive(Debug)]
pub struct Incident<R> {
    pub ray: R,
    pub depth: usize,
}

/// Where a trace stands between two calls.
#[derive(Clone, Copy, Debug, PartialEq, Eq, Structural)]
pub enum Phase {
    /// The next incident may be taken.
    Ready,
    /// An incident at `depth` was taken; its outcome is awaited.
    Traced { depth: usize },
    /// An incident at `depth` hit; its `reflections` rays and its shadow test
    /// are awaited.
    Shading { depth: usize, reflections: usize },
    /// A single-sample mode hit something: nothing more is traced.
    Stopped,
}

/// What the caller does after a hit.
#[derive(Clone, Copy, Debug, PartialEq, Eq, Structural)]
pub enum HitAction {
    /// Emit the single sample of this mode and end the trace.
    Stop,
    /// Generate `reflections` diffuse rays from the hit, cast a shadow ray,
    /// and report both with `record_shading`.
    Shade { reflections: usize },
}

/// Total reach of the incidents on a work list.
pub open spec fn load<R>(pending: Seq<Incident<R>>) -> nat
    decreases pending.len(),
{
    if pending.len() == 0 {
        0
    } else {
        load(pending.drop_last()) + reach(pending.last().depth as nat)
    }
}

/// The reflection rays of a hit at `depth`, as they go on the work list.
pub open spec fn reflections_at<R>(rays: Seq<R>, depth: nat) -> Seq<Incident<R>> {
    rays.map_values(|ray: R| Incident { ray, depth: depth as usize })
}

/// How many reflections a hit at `depth` spawns.
pub open spec fn fan_out(depth: nat) -> nat {
    if depth < REFLECTION_DEPTH {
        REFLECTION_COUNT as nat
    } else {
        0
    }
}

pub struct Sampler<R> {
    pending: Vec<Incident<R>>,
    view_mode: ViewMode,
    stats: TraceStats,
    samples: usize,
    phase: Phase,
}

impl<R> Sampler<R> {
    /// The incidents still to be traced; the last one is taken next.
    pub closed spec fn pending(&self) -> Seq<Incident<R>> {
        self.pending@
    }

    pub closed spec fn spec_view_mode(&self) -> ViewMode {
        self.view_mode
    }

    pub closed spec fn spec_stats(&self) -> TraceStats {
        self.stats
    }

    /// How many samples (colors) the trace has produced.
    pub closed spec fn spec_samples(&self) -> nat {
        self.samples as nat
    }

    pub closed spec fn phase(&self) -> Phase {
        self.phase
    }

    /// Rays still to be traced at most, counting what the current incident
    /// can still lead to.
    pub open spec fn budget(&self) -> nat {
        match self.phase() {
            Phase::Ready => load(self.pending()),
            Phase::Traced { depth } => (load(self.pending()) + reach(depth as nat) - 1) as nat,
            Phase::Shading { depth, reflections } => load(self.pending()) + (reflections as nat) * reach(
                depth as nat + 1,
            ),
            Phase::Stopped => 0,
        }
    }

    /// Has the trace ended?
    pub open spec fn finished(&self) -> bool {
        ||| self.phase() is Stopped
        ||| (self.phase() is Ready && self.pending().len() == 0)
    }

    /// The invariant of a trace.
    pub open spec fn wf(&self) -> bool {
        let s = self.spec_stats();
        let busy = !(self.phase() is Ready || self.phase() is Stopped);
        &&& forall|i: int|
            0 <= i < self.pending().len() ==> #[trigger] self.pending()[i].depth <= REFLECTION_DEPTH
        &&& s.traced + self.budget() <= MAX_SAMPLE_COUNT
        &&& s.traced + self.pending().len() == 1 + s.reflected
        &&& s.hit + (if self.phase() is Traced { 1int } else { 0 }) <= s.traced
        &&& s.shadow_hit <= s.shadow_traced
        &&& self.spec_samples() + (if busy { 1int } else { 0 }) == s.traced
        &&& match self.phase() {
            Phase::Ready => true,
            Phase::Traced { depth } => depth <= REFLECTION_DEPTH,
            Phase::Shading { depth, reflections } => {
                &&& depth <= REFLECTION_DEPTH
                &&& reflections == fan_out(depth as nat)
                &&& !self.spec_view_mode().stops_at_first_hit()
            },
            Phase::Stopped => self.spec_view_mode().stops_at_first_hit(),
        }
        &&& if self.spec_view_mode().stops_at_first_hit() {
            &&& s.reflected == 0
            &&& s.shadow_traced == 0
            &&& s.hit == (if self.phase() is Stopped { 1int } else { 0 })
        } else {
            s.shadow_traced + (if self.phase() is Shading { 1int } else { 0 }) == s.hit
        }
    }
}

proof fn lemma_load_push<R>(pending: Seq<Incident<R>>, incident: Incident<R>)
    ensures
        load(pending.push(incident)) == load(pending) + reach(incident.depth as nat),
{
    assert(pending.push(incident).drop_last() =~= pending);
}

proof fn lemma_reach_positive(depth: nat)
    ensures
        reach(depth) >= 1,
    decreases REFLECTION_DEPTH - depth,
{
    if depth < REFLECTION_DEPTH {
        lemma_reach_positive(depth + 1);
    }
}

proof fn lemma_load_at_least_len<R>(pending: Seq<Incident<R>>)
    ensures
        load(pending) >= pending.len(),
    decreases pending.len(),
{
    if pending.len() > 0 {
        lemma_load_at_least_len(pending.drop_last());
        lemma_reach_positive(pending.last().depth as nat);
    }
}

impl<R> Sampler<R> {
    /// A trace of `ray` as a primary ray.
    pub fn new(ray: R, view_mode: ViewMode) -> (r: Self)
        ensures
            r.wf(),
            r.pending() == seq![Incident { ray, depth: 0usize }],
            r.spec_view_mode() == view_mode,
            r.spec_stats() == zero_stats(),
            r.spec_samples() == 0,
            r.phase() == Phase::Ready,
    {
        let mut pending = Vec::new();
        pending.push(Incident { ray, depth: 0 });
        let r = Sampler {
            pending,
            view_mode,
            stats: TraceStats { traced: 0, reflected: 0, hit: 0, shadow_traced: 0, shadow_hit: 0 },
            samples: 0,
            phase: Phase::Ready,
        };
        proof {
            lemma_max_sample_count();
            lemma_load_push(Seq::<Incident<R>>::empty(), Incident { ray, depth: 0usize });
            assert(seq![Incident { ray, depth: 0usize }] =~= Seq::<Incident<R>>::empty().push(
                Incident { ray, depth: 0usize },
            ));
        }
        r
    }

    pub fn view_mode(&self) -> (r: ViewMode)
        ensures
            r == self.spec_view_mode(),
    {
        self.view_mode
    }

    pub fn stats(&self) -> (r: TraceStats)
        ensures
            r == self.spec_stats(),
    {
        self.stats
    }

    /// How many samples the trace has produced so far.
    pub fn sample_count(&self) -> (r: usize)
        ensures
            r == self.spec_samples(),
    {
        self.samples
    }

    /// Takes the next incident off the work list, unless the trace has ended.
    pub fn next_incident(&mut self) -> (r: Option<Incident<R>>)
        requires
            old(self).wf(),
            old(self).phase() is Ready || old(self).phase() is Stopped,
        ensures
            final(self).wf(),
            final(self).spec_view_mode() == old(self).spec_view_mode(),
            final(self).spec_samples() == old(self).spec_samples(),
            old(self).finished() ==> r is None && *final(self) == *old(self),
            !old(self).finished() ==> {
                &&& r == Some(old(self).pending().last())
                &&& final(self).pending() == old(self).pending().drop_last()
                &&& final(self).spec_stats() == (TraceStats {
                    traced: (old(self).spec_stats().traced + 1) as usize,
                    ..old(self).spec_stats()
                })
                &&& final(self).phase() == (Phase::Traced { depth: old(self).pending().last().depth })
            },
    {
        if self.phase == Phase::Stopped || self.pending.len() == 0 {
            return None;
        }
        let ghost before = self.pending@;
        let incident = self.pending.pop().unwrap();
        proof {
            lemma_load_push(before.drop_last(), incident);
            assert(before.drop_last().push(incident) =~= before);
            lemma_reach_positive(incident.depth as nat);
            assert(before[before.len() - 1].depth <= REFLECTION_DEPTH);
        }
        self.stats.traced = self.stats.traced + 1;
        self.phase = Phase::Traced { depth: incident.depth };
        proof {
            assert forall|i: int| 0 <= i < self.pending@.len() implies #[trigger] self.pending@[i].depth
                <= REFLECTION_DEPTH by {
                assert(self.pending@[i] == before[i]);
            }
        }
        Some(incident)
    }

    /// The incident taken last hit nothing: its sample is counted.
    pub fn record_miss(&mut self)
        requires
            old(self).wf(),
            old(self).phase() is Traced,
        ensures
            final(self).wf(),
            final(self).pending() == old(self).pending(),
            final(self).spec_view_mode() == old(self).spec_view_mode(),
            final(self).spec_stats() == old(self).spec_stats(),
            final(self).spec_samples() == old(self).spec_samples() + 1,
            final(self).phase() == Phase::Ready,
    {
        proof {
            lemma_reach_positive(self.phase->Traced_depth as nat);
        }
        self.samples = self.samples + 1;
        self.phase = Phase::Ready;
    }

    /// The incident taken last hit an object. In a single-sample mode this
    /// ends the trace with one sample; otherwise the answer says how many
    /// reflection rays the hit spawns.
    pub fn record_hit(&mut self) -> (r: HitAction)
        requires
            old(self).wf(),
            old(self).phase() is Traced,
        ensures
            final(self).wf(),
            final(self).pending() == old(self).pending(),
            final(self).spec_view_mode() == old(self).spec_view_mode(),
            final(self).spec_stats() == (TraceStats {
                hit: (old(self).spec_stats().hit + 1) as usize,
                ..old(self).spec_stats()
            }),
            old(self).spec_view_mode().stops_at_first_hit() ==> {
                &&& r == HitAction::Stop
                &&& final(self).phase() == Phase::Stopped
                &&& final(self).spec_samples() == old(self).spec_samples() + 1
            },
            !old(self).spec_view_mode().stops_at_first_hit() ==> {
                let depth = old(self).phase()->Traced_depth;
                &&& r == (HitAction::Shade { reflections: fan_out(depth as nat) as usize })
                &&& final(self).phase() == (Phase::Shading {
                    depth,
                    reflections: fan_out(depth as nat) as usize,
                })
                &&& final(self).spec_samples() == old(self).spec_samples()
            },
    {
        let depth = match self.phase {
            Phase::Traced { depth } => depth,
            _ => 0,
        };
        let ghost before = self.budget();
        proof {
            assert(before == load(self.pending@) + reach(depth as nat) - 1);
        }
        self.stats.hit = self.stats.hit + 1;
        if self.view_mode.is_single_sample() {
            self.samples = self.samples + 1;
            self.phase = Phase::Stopped;
            HitAction::Stop
        } else {
            let reflections = if depth < REFLECTION_DEPTH {
                REFLECTION_COUNT
            } else {
                0
            };
            proof {
                if depth < REFLECTION_DEPTH {
                    assert(reach(depth as nat) == 1 + REFLECTION_COUNT * reach(depth as nat + 1));
                } else {
                    assert(reach(depth as nat) == 1);
                }
            }
            self.phase = Phase::Shading { depth, reflections };
            proof {
                assert(self.budget() == load(self.pending@) + (reflections as nat) * reach(
                    depth as nat + 1,
                ));
                assert(self.budget() == before);
            }
            HitAction::Shade { reflections }
        }
    }

    /// Reports the reflection rays generated for the last hit, in the order
    /// they go on the work list, and whether its shadow ray was blocked. The
    /// hit's sample is counted.
    pub fn record_shading(&mut self, reflected: Vec<R>, shadow_blocked: bool)
        requires
            old(self).wf(),
            old(self).phase() is Shading,
            reflected@.len() == old(self).phase()->reflections,
        ensures
            final(self).wf(),
            final(self).pending() == old(self).pending() + reflections_at(
                reflected@,
                old(self).phase()->Shading_depth as nat + 1,
            ),
            final(self).spec_view_mode() == old(self).spec_view_mode(),
            final(self).spec_stats() == (TraceStats {
                reflected: (old(self).spec_stats().reflected + reflected@.len()) as usize,
                shadow_traced: (old(self).spec_stats().shadow_traced + 1) as usize,
                shadow_hit: (old(self).spec_stats().shadow_hit + if shadow_blocked {
                    1int
                } else {
                    0
                }) as usize,
                ..old(self).spec_stats()
            }),
            final(self).spec_samples() == old(self).spec_samples() + 1,
            final(self).phase() == Phase::Ready,
    {
        let (depth, count) = match self.phase {
            Phase::Shading { depth, reflections } => (depth, reflections),
            _ => (0, 0),
        };
        let ghost rays = reflected@;
        let ghost start = self.pending@;
        let ghost start_stats = self.stats;
        let mut reflected = reflected;
        let mut k: usize = 0;
        while k < count
            invariant
                count == rays.len(),
                count == fan_out(depth as nat),
                depth <= REFLECTION_DEPTH,
                k <= count,
                reflected@ == rays.skip(k as int),
                self.pending@ == start + reflections_at(rays.take(k as int), depth as nat + 1),
                load(self.pending@) == load(start) + k * reach(depth as nat + 1),
                self.stats == (TraceStats {
                    reflected: (start_stats.reflected + k) as usize,
                    ..start_stats
                }),
                start_stats.traced + load(start) + count * reach(depth as nat + 1) <= MAX_SAMPLE_COUNT,
                start_stats.traced + start.len() == 1 + start_stats.reflected,
                self.samples == old(self).samples,
                self.view_mode == old(self).view_mode,
                self.phase == old(self).phase,
                forall|i: int|
                    0 <= i < self.pending@.len() ==> #[trigger] self.pending@[i].depth
                        <= REFLECTION_DEPTH,
            decreases count - k,
        {
            let ray = reflected.remove(0);
            proof {
                assert(rays.skip(k as int)[0] == rays[k as int]);
                assert(rays.skip(k as int).skip(1) =~= rays.skip(k as int + 1));
                lemma_load_push(self.pending@, Incident { ray, depth: (depth + 1) as usize });
                assert(reflections_at(rays.take(k as int + 1), depth as nat + 1) =~= reflections_at(
                    rays.take(k as int),
                    depth as nat + 1,
                ).push(Incident { ray, depth: (depth + 1) as usize }));
                assert(fan_out(depth as nat) > 0);
                assert(k * reach(depth as nat + 1) + reach(depth as nat + 1) <= count * reach(
                    depth as nat + 1,
                )) by (nonlinear_arith)
                    requires
                        k < count,
                ;
                assert((k + 1) * reach(depth as nat + 1) == k * reach(depth as nat + 1) + reach(
                    depth as nat + 1,
                )) by (nonlinear_arith);
                lemma_load_at_least_len(self.pending@);
            }
            self.pending.push(Incident { ray, depth: depth + 1 });
            self.stats.reflected = self.stats.reflected + 1;
            k = k + 1;
        }
        proof {
            assert(rays.take(count as int) =~= rays);
            lemma_load_at_least_len(self.pending@);
        }
        self.stats.shadow_traced = self.stats.shadow_traced + 1;
        if shadow_blocked {
            self.stats.shadow_hit = self.stats.shadow_hit + 1;
        }
        self.samples = self.samples + 1;
        self.phase = Phase::Ready;
    }
}


/// The statistics of a finished trace. Each traced ray gave exactly one
/// sample and no trace exceeds `MAX_SAMPLE_COUNT` rays. In the modes that
/// shade every hit, each traced ray was the primary ray or one spawned
/// reflection, and every hit cast exactly one shadow ray. In the
/// single-sample modes exactly one ray was traced and nothing was reflected
/// or shadow-tested.
pub proof fn lemma_finished_trace<R>(s: &Sampler<R>)
    requires
        s.wf(),
        s.finished(),
    ensures
        s.spec_samples() == s.spec_stats().traced,
        s.spec_stats().traced <= MAX_SAMPLE_COUNT,
        s.spec_stats().hit <= s.spec_stats().traced,
        !s.spec_view_mode().stops_at_first_hit() ==> {
            &&& s.spec_stats().traced == 1 + s.spec_stats().reflected
            &&& s.spec_stats().shadow_traced == s.spec_stats().hit
        },
        s.spec_view_mode().stops_at_first_hit() ==> {
            &&& s.spec_stats().traced == 1
            &&& s.spec_stats().reflected == 0
            &&& s.spec_stats().shadow_traced == 0
        },
{
}

} // verus!
