use ray_tracer::render::{pixel_coordinates, pixel_size, FrameAssembly, Partition, PixelReport};
use ray_tracer::trace_stats::TraceStats;
use ray_tracer::vector::Vec2;

#[test]
fn ranges_are_ceiling_sized() {
    let p = Partition::new(10, 3);
    assert_eq!(p.tasks_per_thread(), 4);
    assert_eq!(p.task_range(0), (0, 4));
    assert_eq!(p.task_range(1), (4, 8));
    assert_eq!(p.task_range(2), (8, 10));
    let p = Partition::new(5, 4);
    assert_eq!(p.tasks_per_thread(), 2);
    assert_eq!(p.task_range(2), (4, 5));
    assert_eq!(p.task_range(3), (5, 5));
    let p = Partition::new(12, 1);
    assert_eq!(p.task_range(0), (0, 12));
    let p = Partition::new(0, 4);
    assert_eq!(p.tasks_per_thread(), 0);
    assert_eq!(p.task_range(3), (0, 0));
}

#[test]
fn every_pixel_rendered_once() {
    for pixels in [0usize, 1, 7, 64, 1920] {
        for threads in 1..=9usize {
            let p = Partition::new(pixels, threads);
            let mut seen = vec![0u32; pixels];
            for t in 0..threads {
                let (start, end) = p.task_range(t);
                for i in start..end {
                    seen[i] += 1;
                }
            }
            assert!(seen.iter().all(|&n| n == 1), "{pixels} pixels, {threads} threads");
        }
    }
}

#[test]
fn coordinates_row_by_row() {
    assert_eq!(pixel_coordinates(0, 80), Vec2 { x: 0, y: 0 });
    assert_eq!(pixel_coordinates(79, 80), Vec2 { x: 79, y: 0 });
    assert_eq!(pixel_coordinates(80, 80), Vec2 { x: 0, y: 1 });
    assert_eq!(pixel_coordinates(165, 80), Vec2 { x: 5, y: 2 });
}

#[test]
fn display_size() {
    let cells = Vec2 { x: 80usize, y: 24usize };
    assert_eq!(pixel_size(cells, Vec2 { x: 1280, y: 720 }), Vec2 { x: 1280, y: 720 });
    assert_eq!(pixel_size(cells, Vec2 { x: 0, y: 0 }), Vec2 { x: 640, y: 384 });
    assert_eq!(pixel_size(cells, Vec2 { x: 1280, y: 0 }), Vec2 { x: 640, y: 384 });
}

fn stats_of(i: usize) -> TraceStats {
    let reflected = 2 * (i % 4);
    TraceStats { traced: 1 + reflected, reflected, hit: i % 3, shadow_traced: i % 3, shadow_hit: i % 2 }
}

fn render_with(pixels: usize, threads: usize) -> (Vec<u32>, TraceStats) {
    let partition = Partition::new(pixels, threads);
    let mut frame = FrameAssembly::new(pixels);
    // Workers finish in reverse order, each reporting its range backwards.
    for t in (0..threads).rev() {
        let (start, end) = partition.task_range(t);
        for i in (start..end).rev() {
            assert!(!frame.is_filled(i));
            frame.accept(i, PixelReport { color: (i * i) as u32, stats: stats_of(i) });
        }
    }
    frame.finish().expect("complete frame")
}

#[test]
fn one_thread_and_many_give_the_same_frame() {
    let (colors_one, stats_one) = render_with(50, 1);
    for threads in [2, 3, 7, 16, 64] {
        let (colors, stats) = render_with(50, threads);
        assert_eq!(colors, colors_one);
        assert_eq!(stats, stats_one);
    }
    assert_eq!(colors_one, (0..50).map(|i| (i * i) as u32).collect::<Vec<_>>());
    let mut expected = TraceStats::default();
    for i in 0..50 {
        expected.add_assign(stats_of(i));
    }
    assert_eq!(stats_one, expected);
    assert_eq!(stats_one.traced, 50 + stats_one.reflected);
    assert_eq!(stats_one.shadow_traced, stats_one.hit);
}

#[test]
fn incomplete_frame_is_not_finished() {
    let mut frame = FrameAssembly::new(3);
    assert_eq!(frame.pixel_count(), 3);
    frame.accept(0, PixelReport { color: 'a', stats: TraceStats::default() });
    frame.accept(2, PixelReport { color: 'c', stats: TraceStats::default() });
    assert!(frame.finish().is_none());
    assert!(!frame.is_filled(1));
    frame.accept(1, PixelReport { color: 'b', stats: TraceStats::default() });
    let (colors, stats) = frame.finish().unwrap();
    assert_eq!(colors, vec!['a', 'b', 'c']);
    assert_eq!(stats, TraceStats::default());
    let empty: FrameAssembly<u8> = FrameAssembly::new(0);
    assert_eq!(empty.finish().map(|(c, _)| c.len()), Some(0));
}
