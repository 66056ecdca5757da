//! Work partition and frame assembly of the parallel renderer.
//!
//! The pixel grid is numbered row by row. A frame is split into contiguous
//! index ranges, one per worker, each of `ceil(pixel_count / thread_count)`
//! pixels (the last ones may be shorter or empty). Workers report one result
//! per pixel, in any order; the frame is assembled by pixel index, so it does
//! not depend on the number of workers nor on the order of the reports.
use vstd::prelude::*;
use crate::sampler::MAX_SAMPLE_COUNT;
use crate::trace_stats::{zero_stats, TraceStats};
use crate::vector::Vec2;

verus! {

/// Pixels given to each worker: `pixel_count / thread_count`, rounded up.
pub open spec fn tasks_per_thread(pixel_count: nat, thread_count: nat) -> nat
    recommends
        thread_count >= 1,
{
    ((pixel_count + thread_count - 1) / (thread_count as int)) as nat
}

/// First pixel index of worker `thread`.
pub open spec fn range_start(pixel_count: nat, thread_count: nat, thread: nat) -> nat {
    let start = thread * tasks_per_thread(pixel_count, thread_count);
    if start <= pixel_count {
        start
    } else {
        pixel_count
    }
}

/// One past the last pixel index of worker `thread`.
pub open spec fn range_end(pixel_count: nat, thread_count: nat, thread: nat) -> nat {
    let end = (thread + 1) * tasks_per_thread(pixel_count, thread_count);
    if end <= pixel_count {
        end
    } else {
        pixel_count
    }
}

/// Does worker `thread` render pixel `pixel`?
pub open spec fn renders(pixel_count: nat, thread_count: nat, thread: nat, pixel: nat) -> bool {
    range_start(pixel_count, thread_count, thread) <= pixel < range_end(
        pixel_count,
        thread_count,
        thread,
    )
}

proof fn lemma_tasks_per_thread(pixel_count: nat, thread_count: nat)
    requires
        thread_count >= 1,
    ensures
        tasks_per_thread(pixel_count, thread_count) * thread_count >= pixel_count,
        tasks_per_thread(pixel_count, thread_count) * thread_count <= pixel_count + thread_count
            - 1,
        pixel_count >= 1 ==> tasks_per_thread(pixel_count, thread_count) >= 1,
{
    let m = pixel_count + thread_count - 1;
    let per = tasks_per_thread(pixel_count, thread_count);
    vstd::arithmetic::div_mod::lemma_fundamental_div_mod(m as int, thread_count as int);
    vstd::arithmetic::div_mod::lemma_mod_bound(m as int, thread_count as int);
    assert(per * thread_count == thread_count * per) by (nonlinear_arith);
    if per == 0 {
        assert(per * thread_count == 0) by (nonlinear_arith)
            requires
                per == 0,
        ;
    }
}

/// Every pixel of the frame is rendered by exactly one worker, whatever the
/// number of workers.
pub proof fn lemma_each_pixel_rendered_once(pixel_count: nat, thread_count: nat, pixel: nat)
    requires
        thread_count >= 1,
        pixel < pixel_count,
    ensures
        exists|thread: nat|
            thread < thread_count && #[trigger] renders(pixel_count, thread_count, thread, pixel),
        forall|a: nat, b: nat|
            a < thread_count && b < thread_count && #[trigger] renders(
                pixel_count,
                thread_count,
                a,
                pixel,
            ) && #[trigger] renders(pixel_count, thread_count, b, pixel) ==> a == b,
{
    let per = tasks_per_thread(pixel_count, thread_count);
    lemma_tasks_per_thread(pixel_count, thread_count);
    let owner = pixel / per;
    vstd::arithmetic::div_mod::lemma_fundamental_div_mod(pixel as int, per as int);
    vstd::arithmetic::div_mod::lemma_mod_bound(pixel as int, per as int);
    assert(owner * per <= pixel < (owner + 1) * per) by (nonlinear_arith)
        requires
            pixel == per * owner + pixel % per,
            0 <= pixel % per < per,
    ;
    assert(owner < thread_count) by (nonlinear_arith)
        requires
            owner * per <= pixel,
            pixel < pixel_count,
            per * thread_count >= pixel_count,
            per >= 1,
    ;
    assert(renders(pixel_count, thread_count, owner, pixel));
    assert forall|a: nat, b: nat|
        a < thread_count && b < thread_count && #[trigger] renders(pixel_count, thread_count, a, pixel)
            && #[trigger] renders(pixel_count, thread_count, b, pixel) implies a == b by {
        lemma_range_owner(pixel_count, thread_count, a, pixel);
        lemma_range_owner(pixel_count, thread_count, b, pixel);
    }
}

proof fn lemma_range_owner(pixel_count: nat, thread_count: nat, thread: nat, pixel: nat)
    requires
        thread_count >= 1,
        renders(pixel_count, thread_count, thread, pixel),
    ensures
        thread == pixel / tasks_per_thread(pixel_count, thread_count),
{
    let per = tasks_per_thread(pixel_count, thread_count);
    assert(thread * per <= pixel < (thread + 1) * per);
    assert(per > 0) by (nonlinear_arith)
        requires
            thread * per <= pixel < (thread + 1) * per,
    ;
    vstd::arithmetic::div_mod::lemma_fundamental_div_mod(pixel as int, per as int);
    vstd::arithmetic::div_mod::lemma_mod_bound(pixel as int, per as int);
    let q = pixel / per;
    assert(thread == q) by (nonlinear_arith)
        requires
            thread * per <= pixel < (thread + 1) * per,
            pixel == per * q + pixel % per,
            0 <= pixel % per < per,
    ;
}

/// How a frame's pixels are divided among the workers.
pub struct Partition {
    pixel_count: usize,
    thread_count: usize,
    per_thread: usize,
}

impl Partition {
    pub closed spec fn spec_pixel_count(&self) -> nat {
        self.pixel_count as nat
    }

    pub closed spec fn spec_thread_count(&self) -> nat {
        self.thread_count as nat
    }

    pub open spec fn wf(&self) -> bool {
        &&& self.spec_thread_count() >= 1
        &&& self.spec_pixel_count() + self.spec_thread_count() - 1 <= usize::MAX
        &&& self.spec_per_thread() == tasks_per_thread(
            self.spec_pixel_count(),
            self.spec_thread_count(),
        )
    }

    pub closed spec fn spec_per_thread(&self) -> nat {
        self.per_thread as nat
    }

    /// Splits `pixel_count` pixels among `thread_count` workers.
    pub fn new(pixel_count: usize, thread_count: usize) -> (r: Partition)
        requires
            thread_count >= 1,
            pixel_count + thread_count - 1 <= usize::MAX,
        ensures
            r.wf(),
            r.spec_pixel_count() == pixel_count,
            r.spec_thread_count() == thread_count,
            r.spec_per_thread() == tasks_per_thread(pixel_count as nat, thread_count as nat),
    {
        let per_thread = (pixel_count + (thread_count - 1)) / thread_count;
        Partition { pixel_count, thread_count, per_thread }
    }

    pub fn thread_count(&self) -> (r: usize)
        ensures
            r == self.spec_thread_count(),
    {
        self.thread_count
    }

    /// Pixels given to each worker.
    pub fn tasks_per_thread(&self) -> (r: usize)
        requires
            self.wf(),
        ensures
            r == tasks_per_thread(self.spec_pixel_count(), self.spec_thread_count()),
    {
        self.per_thread
    }

    /// The pixel indices `start..end` that worker `thread` renders.
    pub fn task_range(&self, thread: usize) -> (r: (usize, usize))
        requires
            self.wf(),
            thread < self.spec_thread_count(),
        ensures
            r.0 == range_start(self.spec_pixel_count(), self.spec_thread_count(), thread as nat),
            r.1 == range_end(self.spec_pixel_count(), self.spec_thread_count(), thread as nat),
    {
        proof {
            lemma_tasks_per_thread(self.pixel_count as nat, self.thread_count as nat);
            assert((thread + 1) * self.per_thread <= self.thread_count * self.per_thread)
                by (nonlinear_arith)
                requires
                    thread + 1 <= self.thread_count,
            ;
            assert(thread * self.per_thread + self.per_thread == (thread + 1) * self.per_thread)
                by (nonlinear_arith);
            assert(self.thread_count * self.per_thread == self.per_thread * self.thread_count)
                by (nonlinear_arith);
            assert(thread * self.per_thread + self.per_thread <= usize::MAX);
        }
        let start = thread * self.per_thread;
        let end = start + self.per_thread;
        let start = if start <= self.pixel_count {
            start
        } else {
            self.pixel_count
        };
        let end = if end <= self.pixel_count {
            end
        } else {
            self.pixel_count
        };
        (start, end)
    }
}

/// Column and row of pixel `index` in a grid `width` cells wide.
pub fn pixel_coordinates(index: usize, width: usize) -> (r: Vec2<usize>)
    requires
        width >= 1,
    ensures
        r.x == index % width,
        r.y == index / width,
{
    Vec2 { x: index % width, y: index / width }
}


/// What a worker reports for one pixel.
#[derive(Clone, Copy, Debug)]
pub struct PixelReport<C> {
    pub color: C,
    pub stats: TraceStats,
}

/// The frame after `reports` (pixel index and result) arrive in order on
/// `cells`.
pub open spec fn assemble<C>(
    cells: Seq<Option<PixelReport<C>>>,
    reports: Seq<(usize, PixelReport<C>)>,
) -> Seq<Option<PixelReport<C>>>
    decreases reports.len(),
{
    if reports.len() == 0 {
        cells
    } else {
        assemble(cells, reports.drop_last()).update(
            reports.last().0 as int,
            Some(reports.last().1),
        )
    }
}

/// No two reports are for the same pixel.
pub open spec fn distinct_pixels<C>(reports: Seq<(usize, PixelReport<C>)>) -> bool {
    forall|i: int, j: int|
        0 <= i < reports.len() && 0 <= j < reports.len() && i != j ==> reports[i].0
            != reports[j].0
}

/// Every report is for a pixel of a frame of `len` pixels.
pub open spec fn pixels_within<C>(reports: Seq<(usize, PixelReport<C>)>, len: nat) -> bool {
    forall|k: int| 0 <= k < reports.len() ==> #[trigger] reports[k].0 < len
}

proof fn lemma_assemble_len<C>(
    cells: Seq<Option<PixelReport<C>>>,
    reports: Seq<(usize, PixelReport<C>)>,
)
    requires
        pixels_within(reports, cells.len()),
    ensures
        assemble(cells, reports).len() == cells.len(),
    decreases reports.len(),
{
    if reports.len() > 0 {
        let rest = reports.drop_last();
        assert forall|k: int| 0 <= k < rest.len() implies #[trigger] rest[k].0 < cells.len() by {
            assert(rest[k] == reports[k]);
        }
        lemma_assemble_len(cells, rest);
        assert(reports[reports.len() - 1].0 < cells.len());
    }
}

proof fn lemma_assemble_cell<C>(
    cells: Seq<Option<PixelReport<C>>>,
    reports: Seq<(usize, PixelReport<C>)>,
    pixel: int,
)
    requires
        distinct_pixels(reports),
        pixels_within(reports, cells.len()),
        0 <= pixel < cells.len(),
    ensures
        assemble(cells, reports).len() == cells.len(),
        forall|k: int|
            0 <= k < reports.len() && #[trigger] reports[k].0 == pixel ==> assemble(
                cells,
                reports,
            )[pixel] == Some(reports[k].1),
        (forall|k: int| 0 <= k < reports.len() ==> #[trigger] reports[k].0 != pixel) ==> assemble(
            cells,
            reports,
        )[pixel] == cells[pixel],
    decreases reports.len(),
{
    if reports.len() > 0 {
        let rest = reports.drop_last();
        assert forall|k: int| 0 <= k < rest.len() implies #[trigger] rest[k] == reports[k] by {}
        lemma_assemble_cell(cells, rest, pixel);
        lemma_assemble_len(cells, reports);
        let last = reports.len() - 1;
        assert(reports[last].0 < cells.len());
        if reports.last().0 as int != pixel {
            assert forall|k: int|
                0 <= k < reports.len() && #[trigger] reports[k].0 == pixel implies assemble(
                cells,
                reports,
            )[pixel] == Some(reports[k].1) by {
                assert(k != last);
                assert(rest[k] == reports[k]);
            }
            if forall|k: int| 0 <= k < reports.len() ==> #[trigger] reports[k].0 != pixel {
                assert forall|k: int| 0 <= k < rest.len() implies #[trigger] rest[k].0 != pixel by {
                    assert(rest[k] == reports[k]);
                }
            }
        }
    }
}

/// The assembled frame does not depend on the order in which the reports
/// arrive: the same reports, one per pixel, received in any two orders, give
/// the same frame.
pub proof fn lemma_assembly_order_independent<C>(
    cells: Seq<Option<PixelReport<C>>>,
    a: Seq<(usize, PixelReport<C>)>,
    b: Seq<(usize, PixelReport<C>)>,
)
    requires
        distinct_pixels(a),
        distinct_pixels(b),
        pixels_within(a, cells.len()),
        forall|x: (usize, PixelReport<C>)| a.contains(x) <==> b.contains(x),
    ensures
        assemble(cells, a) == assemble(cells, b),
{
    assert forall|k: int| 0 <= k < b.len() implies #[trigger] b[k].0 < cells.len() by {
        assert(b.contains(b[k]));
        let j = choose|j: int| 0 <= j < a.len() && a[j] == b[k];
        assert(a[j].0 < cells.len());
    }
    assert forall|p: int| 0 <= p < cells.len() implies assemble(cells, a)[p] == assemble(
        cells,
        b,
    )[p] by {
        lemma_assemble_cell(cells, a, p);
        lemma_assemble_cell(cells, b, p);
        if exists|k: int| 0 <= k < a.len() && #[trigger] a[k].0 == p {
            let k = choose|k: int| 0 <= k < a.len() && #[trigger] a[k].0 == p;
            assert(a.contains(a[k]));
            let j = choose|j: int| 0 <= j < b.len() && b[j] == a[k];
            assert(b[j].0 == p);
        } else if exists|k: int| 0 <= k < b.len() && #[trigger] b[k].0 == p {
            let k = choose|k: int| 0 <= k < b.len() && #[trigger] b[k].0 == p;
            assert(b.contains(b[k]));
            let j = choose|j: int| 0 <= j < a.len() && a[j] == b[k];
            assert(a[j].0 == p);
        }
    }
    lemma_assemble_len(cells, a);
    lemma_assemble_len(cells, b);
    assert(assemble(cells, a) =~= assemble(cells, b));
}

/// Has every pixel been reported?
pub open spec fn complete<C>(cells: Seq<Option<PixelReport<C>>>) -> bool {
    forall|i: int| 0 <= i < cells.len() ==> #[trigger] cells[i] is Some
}

/// The colors of a complete frame, by pixel index.
pub open spec fn frame_colors<C>(cells: Seq<Option<PixelReport<C>>>) -> Seq<C> {
    cells.map_values(|cell: Option<PixelReport<C>>| cell->0.color)
}

/// The sum of the statistics of a complete frame, taken by pixel index.
pub open spec fn frame_stats<C>(cells: Seq<Option<PixelReport<C>>>) -> TraceStats
    decreases cells.len(),
{
    if cells.len() == 0 {
        zero_stats()
    } else {
        frame_stats(cells.drop_last()).plus(cells.last()->0.stats)
    }
}

/// A frame being filled in by pixel reports.
pub struct FrameAssembly<C> {
    cells: Vec<Option<PixelReport<C>>>,
}

impl<C: Copy> FrameAssembly<C> {
    /// The result reported so far for each pixel.
    pub closed spec fn cells(&self) -> Seq<Option<PixelReport<C>>> {
        self.cells@
    }

    pub open spec fn wf(&self) -> bool {
        &&& self.cells().len() * MAX_SAMPLE_COUNT <= usize::MAX
        &&& forall|i: int|
            0 <= i < self.cells().len() && #[trigger] self.cells()[i] is Some ==> self.cells()[i]->0.stats.bounded_by(
                MAX_SAMPLE_COUNT as nat,
            )
    }

    /// An empty frame of `pixel_count` pixels.
    pub fn new(pixel_count: usize) -> (r: Self)
        requires
            pixel_count * MAX_SAMPLE_COUNT <= usize::MAX,
        ensures
            r.wf(),
            r.cells() == Seq::new(pixel_count as nat, |i: int| None::<PixelReport<C>>),
    {
        let mut cells: Vec<Option<PixelReport<C>>> = Vec::new();
        let mut i: usize = 0;
        while i < pixel_count
            invariant
                i <= pixel_count,
                cells@ == Seq::new(i as nat, |k: int| None::<PixelReport<C>>),
            decreases pixel_count - i,
        {
            cells.push(None);
            i = i + 1;
            assert(cells@ =~= Seq::new(i as nat, |k: int| None::<PixelReport<C>>));
        }
        FrameAssembly { cells }
    }

    pub fn pixel_count(&self) -> (r: usize)
        ensures
            r == self.cells().len(),
    {
        self.cells.len()
    }

    /// Has pixel `index` been reported?
    pub fn is_filled(&self, index: usize) -> (r: bool)
        requires
            index < self.cells().len(),
        ensures
            r == self.cells()[index as int] is Some,
    {
        self.cells[index].is_some()
    }

    /// Records the result of pixel `index`.
    pub fn accept(&mut self, index: usize, report: PixelReport<C>)
        requires
            old(self).wf(),
            index < old(self).cells().len(),
            old(self).cells()[index as int] is None,
            report.stats.bounded_by(MAX_SAMPLE_COUNT as nat),
        ensures
            final(self).wf(),
            final(self).cells() == old(self).cells().update(index as int, Some(report)),
    {
        self.cells.set(index, Some(report));
    }

    /// The colors by pixel index and the summed statistics, once every pixel
    /// has been reported; `None` while some pixel is missing.
    pub fn finish(&self) -> (r: Option<(Vec<C>, TraceStats)>)
        requires
            self.wf(),
        ensures
            r is Some <==> complete(self.cells()),
            r matches Some(frame) ==> frame.0@ == frame_colors(self.cells()) && frame.1
                == frame_stats(self.cells()),
    {
        let ghost cells = self.cells@;
        let n = self.cells.len();
        let mut colors: Vec<C> = Vec::new();
        let mut total = TraceStats { traced: 0, reflected: 0, hit: 0, shadow_traced: 0, shadow_hit: 0 };
        let mut i: usize = 0;
        while i < n
            invariant
                n == cells.len(),
                cells == self.cells@,
                self.wf(),
                i <= n,
                complete(cells.take(i as int)),
                colors@ == frame_colors(cells.take(i as int)),
                total == frame_stats(cells.take(i as int)),
                total.bounded_by((i * MAX_SAMPLE_COUNT) as nat),
            decreases n - i,
        {
            let cell = self.cells[i];
            match cell {
                Some(report) => {
                    proof {
                        assert(cells.take(i as int + 1).drop_last() =~= cells.take(i as int));
                        assert(report.stats.bounded_by(MAX_SAMPLE_COUNT as nat));
                        assert((i + 1) * MAX_SAMPLE_COUNT == i * MAX_SAMPLE_COUNT + MAX_SAMPLE_COUNT)
                            by (nonlinear_arith);
                        assert((i + 1) * MAX_SAMPLE_COUNT <= n * MAX_SAMPLE_COUNT) by (nonlinear_arith)
                            requires
                                i + 1 <= n,
                        ;
                    }
                    colors.push(report.color);
                    total.add_assign(report.stats);
                    proof {
                        assert(colors@ =~= frame_colors(cells.take(i as int + 1)));
                    }
                },
                None => {
                    return None;
                },
            }
            i = i + 1;
        }
        proof {
            assert(cells.take(n as int) =~= cells);
        }
        Some((colors, total))
    }
}


/// Width in pixels of a character cell when the terminal reports none.
pub const FALLBACK_CELL_WIDTH: usize = 8;

/// Height in pixels of a character cell when the terminal reports none.
pub const FALLBACK_CELL_HEIGHT: usize = 16;

/// The display size in pixels: the reported one when both its dimensions are
/// known (non-zero), else the cell grid times the fallback cell size.
pub fn pixel_size(cells: Vec2<usize>, reported: Vec2<usize>) -> (r: Vec2<usize>)
    requires
        cells.x * FALLBACK_CELL_WIDTH <= usize::MAX,
        cells.y * FALLBACK_CELL_HEIGHT <= usize::MAX,
    ensures
        reported.x != 0 && reported.y != 0 ==> r == reported,
        !(reported.x != 0 && reported.y != 0) ==> r == (Vec2 {
            x: (FALLBACK_CELL_WIDTH * cells.x) as usize,
            y: (FALLBACK_CELL_HEIGHT * cells.y) as usize,
        }),
{
    if reported.x != 0 && reported.y != 0 {
        reported
    } else {
        let cell = Vec2 { x: FALLBACK_CELL_WIDTH, y: FALLBACK_CELL_HEIGHT };
        cell.hadamard(cells)
    }
}


/// A pixel whose trace shaded every hit: one primary ray plus its
/// reflections were traced, and each hit cast one shadow ray.
pub open spec fn fully_shaded(stats: TraceStats) -> bool {
    &&& stats.bounded_by(MAX_SAMPLE_COUNT as nat)
    &&& stats.traced == 1 + stats.reflected
    &&& stats.shadow_traced == stats.hit
}

/// The frame totals keep the relations of each trace: when every pixel was
/// fully shaded, the frame traced one ray per pixel plus every reflection,
/// and cast one shadow ray per hit.
pub proof fn lemma_frame_stats_relations<C>(cells: Seq<Option<PixelReport<C>>>)
    requires
        complete(cells),
        cells.len() * MAX_SAMPLE_COUNT <= usize::MAX,
        forall|i: int| 0 <= i < cells.len() ==> fully_shaded(#[trigger] cells[i]->0.stats),
    ensures
        frame_stats(cells).traced == cells.len() + frame_stats(cells).reflected,
        frame_stats(cells).shadow_traced == frame_stats(cells).hit,
        frame_stats(cells).bounded_by(cells.len() * (MAX_SAMPLE_COUNT as nat)),
    decreases cells.len(),
{
    if cells.len() > 0 {
        let rest = cells.drop_last();
        assert forall|i: int| 0 <= i < rest.len() implies fully_shaded(
            #[trigger] rest[i]->0.stats,
        ) && rest[i] is Some by {
            assert(rest[i] == cells[i]);
        }
        assert((rest.len() + 1) * MAX_SAMPLE_COUNT == rest.len() * MAX_SAMPLE_COUNT + MAX_SAMPLE_COUNT)
            by (nonlinear_arith);
        lemma_frame_stats_relations(rest);
        assert(fully_shaded(cells[cells.len() - 1]->0.stats));
    }
}

} // verus!
