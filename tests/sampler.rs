use ray_tracer::sampler::{HitAction, Sampler, MAX_SAMPLE_COUNT, REFLECTION_COUNT, REFLECTION_DEPTH};
use ray_tracer::trace_stats::TraceStats;
use ray_tracer::view_mode::ViewMode;

/// Runs a trace in which ray `r` hits iff `hits(r)`, with the reflections of
/// ray `r` labelled `10 * r + 1`, `10 * r + 2`, ... and every shadow ray
/// blocked iff `blocked`. Returns the rays in the order traced, the depth of
/// each, and the final statistics and sample count.
fn run(
    mode: ViewMode,
    hits: impl Fn(u64) -> bool,
    blocked: bool,
) -> (Vec<(u64, usize)>, TraceStats, usize) {
    let mut sampler = Sampler::new(1u64, mode);
    let mut order = vec![];
    while let Some(incident) = sampler.next_incident() {
        order.push((incident.ray, incident.depth));
        if hits(incident.ray) {
            match sampler.record_hit() {
                HitAction::Stop => {}
                HitAction::Shade { reflections } => {
                    let rays = (1..=reflections as u64).map(|k| 10 * incident.ray + k).collect();
                    sampler.record_shading(rays, blocked);
                }
            }
        } else {
            sampler.record_miss();
        }
    }
    (order, sampler.stats(), sampler.sample_count())
}

#[test]
fn constants() {
    assert_eq!(REFLECTION_DEPTH, 2);
    assert_eq!(REFLECTION_COUNT, 2);
    assert_eq!(MAX_SAMPLE_COUNT, 1 + 2 + 4);
}

#[test]
fn everything_hits_in_color_mode() {
    let (order, stats, samples) = run(ViewMode::Color, |_| true, false);
    assert_eq!(
        order,
        vec![(1, 0), (12, 1), (122, 2), (121, 2), (11, 1), (112, 2), (111, 2)]
    );
    assert_eq!(samples, MAX_SAMPLE_COUNT);
    assert_eq!(
        stats,
        TraceStats { traced: 7, reflected: 6, hit: 7, shadow_traced: 7, shadow_hit: 0 }
    );
}

#[test]
fn shadowed_hits_are_counted() {
    let (_, stats, _) = run(ViewMode::Complexity, |_| true, true);
    assert_eq!(
        stats,
        TraceStats { traced: 7, reflected: 6, hit: 7, shadow_traced: 7, shadow_hit: 7 }
    );
}

#[test]
fn primary_miss_is_one_sample() {
    for mode in [ViewMode::Color, ViewMode::Normal, ViewMode::Depth, ViewMode::Complexity] {
        let (order, stats, samples) = run(mode, |_| false, false);
        assert_eq!(order, vec![(1, 0)]);
        assert_eq!(samples, 1);
        assert_eq!(
            stats,
            TraceStats { traced: 1, reflected: 0, hit: 0, shadow_traced: 0, shadow_hit: 0 }
        );
    }
}

#[test]
fn single_sample_modes_stop_at_first_hit() {
    for mode in [ViewMode::Normal, ViewMode::Depth] {
        let (order, stats, samples) = run(mode, |_| true, false);
        assert_eq!(order, vec![(1, 0)]);
        assert_eq!(samples, 1);
        assert_eq!(
            stats,
            TraceStats { traced: 1, reflected: 0, hit: 1, shadow_traced: 0, shadow_hit: 0 }
        );
    }
}

#[test]
fn partial_hits_keep_the_stat_relations() {
    // The primary ray and its first reflection hit; everything else misses.
    let (order, stats, samples) = run(ViewMode::Color, |r| r == 1 || r == 11, true);
    assert_eq!(order, vec![(1, 0), (12, 1), (11, 1), (112, 2), (111, 2)]);
    assert_eq!(samples, 5);
    assert_eq!(
        stats,
        TraceStats { traced: 5, reflected: 4, hit: 2, shadow_traced: 2, shadow_hit: 2 }
    );
    assert_eq!(stats.traced, 1 + stats.reflected);
    assert_eq!(stats.shadow_traced, stats.hit);
}

#[test]
fn stats_add() {
    let mut a = TraceStats { traced: 7, reflected: 6, hit: 5, shadow_traced: 5, shadow_hit: 1 };
    let b = TraceStats { traced: 1, reflected: 0, hit: 1, shadow_traced: 0, shadow_hit: 0 };
    a.add_assign(b);
    assert_eq!(a, TraceStats { traced: 8, reflected: 6, hit: 6, shadow_traced: 5, shadow_hit: 1 });
    assert_eq!(TraceStats::default(), TraceStats { traced: 0, reflected: 0, hit: 0, shadow_traced: 0, shadow_hit: 0 });
    assert!(a.is_bounded_by(8));
    assert!(!a.is_bounded_by(7));
}
