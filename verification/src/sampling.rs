//! Occupancy sampling: asking a contact test about every cell of a box.

use crate::error::ConversionError;
use crate::voxel_grid::{cell_of, in_range, Cell};
use vstd::prelude::*;

verus! {

/// The order of the sampling pass: `x` slowest, then `y`, and `z` fastest.
pub open spec fn precedes(a: Cell, b: Cell) -> bool {
    a.0 < b.0 || (a.0 == b.0 && (a.1 < b.1 || (a.1 == b.1 && a.2 < b.2)))
}

/// Each cell of `cells` comes before the cells after it.
pub open spec fn ascending(cells: Seq<(i32, i32, i32)>) -> bool {
    forall|m: int, n: int|
        0 <= m < n < cells.len() ==> precedes(cell_of(#[trigger] cells[m]), cell_of(#[trigger] cells[n]))
}

/// `cells` is what a pass over the cells of the box `xyz` that come before
/// `limit` can yield: in ascending order, each cell for which the probe
/// answered "contact", while for every other such cell it answered "no contact".
pub open spec fn sampled_before<F: Fn(i32, i32, i32) -> Option<bool>>(
    probe: F,
    xyz: (i32, i32, i32),
    limit: Cell,
    cells: Seq<(i32, i32, i32)>,
) -> bool {
    &&& ascending(cells)
    &&& forall|n: int|
        0 <= n < cells.len() ==> {
            let c = #[trigger] cells[n];
            &&& in_range(xyz, c.0 as int, c.1 as int, c.2 as int)
            &&& precedes(cell_of(c), limit)
            &&& probe.ensures(c, Some(true))
        }
    &&& forall|x: i32, y: i32, z: i32|
        in_range(xyz, x as int, y as int, z as int) && precedes(cell_of((x, y, z)), limit)
            && !cells.contains((x, y, z)) ==> #[trigger] probe.ensures((x, y, z), Some(false))
}

/// `cells` is what a pass over the whole box `xyz` can yield.
pub open spec fn sampled<F: Fn(i32, i32, i32) -> Option<bool>>(
    probe: F,
    xyz: (i32, i32, i32),
    cells: Seq<(i32, i32, i32)>,
) -> bool {
    sampled_before(probe, xyz, (xyz.0 as int, 0, 0), cells)
}

/// The probe may be asked about every cell of the box.
pub open spec fn probe_ready<F: Fn(i32, i32, i32) -> Option<bool>>(
    probe: F,
    xyz: (i32, i32, i32),
) -> bool {
    forall|x: i32, y: i32, z: i32|
        in_range(xyz, x as int, y as int, z as int) ==> #[trigger] probe.requires((x, y, z))
}

/// The probe failed on some cell of the box.
pub open spec fn probe_failed<F: Fn(i32, i32, i32) -> Option<bool>>(
    probe: F,
    xyz: (i32, i32, i32),
) -> bool {
    exists|x: i32, y: i32, z: i32|
        in_range(xyz, x as int, y as int, z as int) && #[trigger] probe.ensures((x, y, z), None)
}

/// Asks the probe about every cell of the box, one after the other, and
/// returns the cells in contact. A failure of the probe ends the pass.
pub fn do_collision_seq<F: Fn(i32, i32, i32) -> Option<bool>>(xyz: (i32, i32, i32), probe: &F) -> (outcome:
    Result<Vec<(i32, i32, i32)>, ConversionError>)
    requires
        probe_ready(*probe, xyz),
    ensures
        match outcome {
            Ok(cells) => sampled(*probe, xyz, cells@),
            Err(e) => e == ConversionError::ContactTest && probe_failed(*probe, xyz),
        },
{
    let (x, y, z) = xyz;
    let mut cells: Vec<(i32, i32, i32)> = Vec::new();
    let mut i: i32 = 0;
    while i < x
        invariant
            xyz == (x, y, z),
            probe_ready(*probe, xyz),
            0 <= i,
            sampled_before(*probe, xyz, (i as int, 0, 0), cells@),
        decreases x - i,
    {
        let mut j: i32 = 0;
        while j < y
            invariant
                xyz == (x, y, z),
                probe_ready(*probe, xyz),
                0 <= i < x,
                0 <= j,
                sampled_before(*probe, xyz, (i as int, j as int, 0), cells@),
            decreases y - j,
        {
            let mut k: i32 = 0;
            while k < z
                invariant
                    xyz == (x, y, z),
                    probe_ready(*probe, xyz),
                    0 <= i < x,
                    0 <= j < y,
                    0 <= k,
                    sampled_before(*probe, xyz, (i as int, j as int, k as int), cells@),
                decreases z - k,
            {
                let ghost before = cells@;
                match probe(i, j, k) {
                    None => {
                        return Err(ConversionError::ContactTest);
                    },
                    Some(hit) => {
                        if hit {
                            cells.push((i, j, k));
                        }
                        proof {
                            lemma_step(*probe, xyz, (i, j, k), hit, before, cells@);
                        }
                    },
                }
                k += 1;
            }
            j += 1;
        }
        i += 1;
    }
    Ok(cells)
}

/// One more cell has been asked about.
proof fn lemma_step<F: Fn(i32, i32, i32) -> Option<bool>>(
    probe: F,
    xyz: (i32, i32, i32),
    c: (i32, i32, i32),
    hit: bool,
    before: Seq<(i32, i32, i32)>,
    after: Seq<(i32, i32, i32)>,
)
    requires
        in_range(xyz, c.0 as int, c.1 as int, c.2 as int),
        c.2 < i32::MAX,
        sampled_before(probe, xyz, cell_of(c), before),
        probe.ensures(c, Some(hit)),
        after == if hit {
            before.push(c)
        } else {
            before
        },
    ensures
        sampled_before(probe, xyz, (c.0 as int, c.1 as int, c.2 + 1), after),
{
    let limit = (c.0 as int, c.1 as int, c.2 + 1);
    assert forall|x: i32, y: i32, z: i32|
        in_range(xyz, x as int, y as int, z as int) && precedes(cell_of((x, y, z)), limit)
            && !after.contains((x, y, z)) implies #[trigger] probe.ensures((x, y, z), Some(false)) by {
        if (x, y, z) == c {
            if hit {
                assert(after[before.len() as int] == c);
            }
        } else {
            if before.contains((x, y, z)) {
                let n = choose|n: int| 0 <= n < before.len() && before[n] == (x, y, z);
                assert(after[n] == (x, y, z));
            }
        }
    }
}

/// The dimensions of the grid for a surface that spans `spans.0`, `spans.1`
/// and `spans.2` cells along the three axes: one more cell on each axis, so
/// that what lies on the far boundary is not cut off.
///
/// Fails with `ConversionError::Config` exactly when a span is negative or
/// too great for one more cell.
pub fn grid_size(spans: (i32, i32, i32)) -> (outcome: Result<(i32, i32, i32), ConversionError>)
    ensures
        match outcome {
            Ok(xyz) => xyz.0 == spans.0 + 1 && xyz.1 == spans.1 + 1 && xyz.2 == spans.2 + 1
                && spans.0 >= 0 && spans.1 >= 0 && spans.2 >= 0,
            Err(e) => e == ConversionError::Config && (spans.0 < 0 || spans.1 < 0 || spans.2 < 0
                || spans.0 == i32::MAX || spans.1 == i32::MAX || spans.2 == i32::MAX),
        },
{
    let (a, b, c) = spans;
    if a < 0 || b < 0 || c < 0 || a == i32::MAX || b == i32::MAX || c == i32::MAX {
        Err(ConversionError::Config)
    } else {
        Ok((a + 1, b + 1, c + 1))
    }
}

/// The greatest number of cells that are handed out as one piece of work.
pub const RUN_LENGTH: i32 = 100;

/// A piece of work for one worker: the cells `(x, y, k)` with `lo <= k < hi`.
#[derive(Clone, Copy, Debug)]
pub struct Run {
    pub x: i32,
    pub y: i32,
    pub lo: i32,
    pub hi: i32,
}

impl Run {
    /// Whether the cell `c` belongs to this run.
    pub open spec fn has(self, c: Cell) -> bool {
        c.0 == self.x && c.1 == self.y && self.lo <= c.2 < self.hi
    }

    /// The first cell of the run.
    pub open spec fn start(self) -> Cell {
        (self.x as int, self.y as int, self.lo as int)
    }

    /// Whether this run is one of the pieces into which the box `xyz` is cut:
    /// it lies on one line of the box, starts at a multiple of `RUN_LENGTH`
    /// and ends `RUN_LENGTH` cells later or at the end of the line.
    pub open spec fn piece_of(self, xyz: (i32, i32, i32)) -> bool {
        &&& 0 <= self.x < xyz.0
        &&& 0 <= self.y < xyz.1
        &&& 0 <= self.lo < self.hi <= xyz.2
        &&& self.lo % RUN_LENGTH == 0
        &&& self.hi == if xyz.2 - self.lo > RUN_LENGTH {
            self.lo + RUN_LENGTH
        } else {
            xyz.2 as int
        }
    }
}

/// Some run of `runs` holds the cell `c`.
pub open spec fn covered(runs: Seq<Run>, c: Cell) -> bool {
    exists|n: int| 0 <= n < runs.len() && #[trigger] runs[n].has(c)
}

/// `runs` cuts the cells of the box `xyz` that come before `limit` into
/// pieces, listed in the order of the sampling pass.
pub open spec fn partitions_before(runs: Seq<Run>, xyz: (i32, i32, i32), limit: Cell) -> bool {
    &&& forall|n: int|
        0 <= n < runs.len() ==> (#[trigger] runs[n]).piece_of(xyz) && precedes(
            runs[n].start(),
            limit,
        )
    &&& forall|m: int, n: int|
        0 <= m < n < runs.len() ==> precedes((#[trigger] runs[m]).start(), (#[trigger] runs[n]).start())
    &&& forall|c: Cell|
        in_range(xyz, c.0, c.1, c.2) && precedes(c, limit) ==> #[trigger] covered(runs, c)
}

/// `runs` cuts the whole box `xyz` into pieces.
pub open spec fn partitions(runs: Seq<Run>, xyz: (i32, i32, i32)) -> bool {
    partitions_before(runs, xyz, (xyz.0 as int, 0, 0))
}

/// `cells` is what a pass over the cells `(x, y, k)` with `lo <= k < hi` can
/// yield: in ascending order, each cell for which the probe answered
/// "contact", while for every other such cell it answered "no contact".
pub open spec fn sampled_line<F: Fn(i32, i32, i32) -> Option<bool>>(
    probe: F,
    x: i32,
    y: i32,
    lo: i32,
    hi: i32,
    cells: Seq<(i32, i32, i32)>,
) -> bool {
    &&& ascending(cells)
    &&& forall|n: int|
        0 <= n < cells.len() ==> {
            let c = #[trigger] cells[n];
            c.0 == x && c.1 == y && lo <= c.2 < hi && probe.ensures(c, Some(true))
        }
    &&& forall|k: i32|
        lo <= k < hi && !cells.contains((x, y, k)) ==> #[trigger] probe.ensures(
            (x, y, k),
            Some(false),
        )
}

/// `cells` is what a pass over `run` can yield.
pub open spec fn sampled_run<F: Fn(i32, i32, i32) -> Option<bool>>(
    probe: F,
    run: Run,
    cells: Seq<(i32, i32, i32)>,
) -> bool {
    sampled_line(probe, run.x, run.y, run.lo, run.hi, cells)
}

/// The cells of all parts, one part after the other.
pub open spec fn concat(parts: Seq<Vec<(i32, i32, i32)>>) -> Seq<(i32, i32, i32)>
    decreases parts.len(),
{
    if parts.len() == 0 {
        Seq::empty()
    } else {
        concat(parts.drop_last()) + parts.last()@
    }
}

/// The probe answers each cell of the box in one way only.
pub open spec fn answers_once<F: Fn(i32, i32, i32) -> Option<bool>>(
    probe: F,
    xyz: (i32, i32, i32),
) -> bool {
    forall|x: i32, y: i32, z: i32, a: Option<bool>, b: Option<bool>|
        in_range(xyz, x as int, y as int, z as int) && #[trigger] probe.ensures((x, y, z), a)
            && #[trigger] probe.ensures((x, y, z), b) ==> a == b
}

/// Cuts the box into runs: every line along `z` into pieces of `RUN_LENGTH`
/// cells, the last piece of a line taking what is left.
pub fn partition(xyz: (i32, i32, i32)) -> (runs: Vec<Run>)
    ensures
        partitions(runs@, xyz),
{
    let (x, y, z) = xyz;
    let mut runs: Vec<Run> = Vec::new();
    let mut i: i32 = 0;
    while i < x
        invariant
            xyz == (x, y, z),
            0 <= i,
            partitions_before(runs@, xyz, (i as int, 0, 0)),
        decreases x - i,
    {
        let mut j: i32 = 0;
        while j < y
            invariant
                xyz == (x, y, z),
                0 <= i < x,
                0 <= j,
                partitions_before(runs@, xyz, (i as int, j as int, 0)),
            decreases y - j,
        {
            let mut lo: i32 = 0;
            while lo < z
                invariant
                    xyz == (x, y, z),
                    0 <= i < x,
                    0 <= j < y,
                    0 <= lo,
                    lo < z ==> lo % RUN_LENGTH == 0,
                    lo <= z || z < 0,
                    partitions_before(runs@, xyz, (i as int, j as int, lo as int)),
                decreases z - lo,
            {
                let hi: i32 = if z - lo > RUN_LENGTH {
                    lo + RUN_LENGTH
                } else {
                    z
                };
                let run = Run { x: i, y: j, lo, hi };
                let ghost before = runs@;
                runs.push(run);
                proof {
                    assert forall|c: Cell|
                        in_range(xyz, c.0, c.1, c.2) && precedes(
                            c,
                            (i as int, j as int, hi as int),
                        ) implies #[trigger] covered(runs@, c) by {
                        if run.has(c) {
                            assert(runs@[before.len() as int].has(c));
                        } else {
                            assert(covered(before, c));
                            let n = choose|n: int| 0 <= n < before.len() && #[trigger] before[n].has(c);
                            assert(runs@[n].has(c));
                        }
                    }
                }
                lo = hi;
            }
            j += 1;
        }
        i += 1;
    }
    runs
}

/// Asks the probe about every cell of `run`, one after the other, and returns
/// the cells in contact. A failure of the probe ends the pass.
pub fn collide_run<F: Fn(i32, i32, i32) -> Option<bool>>(run: Run, probe: &F) -> (outcome: Result<
    Vec<(i32, i32, i32)>,
    ConversionError,
>)
    requires
        forall|k: i32| run.lo <= k < run.hi ==> #[trigger] probe.requires((run.x, run.y, k)),
    ensures
        match outcome {
            Ok(cells) => sampled_run(*probe, run, cells@),
            Err(e) => e == ConversionError::ContactTest && exists|k: i32|
                run.lo <= k < run.hi && #[trigger] probe.ensures((run.x, run.y, k), None),
        },
{
    let mut cells: Vec<(i32, i32, i32)> = Vec::new();
    let mut k: i32 = run.lo;
    while k < run.hi
        invariant
            forall|k: i32| run.lo <= k < run.hi ==> #[trigger] probe.requires((run.x, run.y, k)),
            run.lo <= k <= run.hi || (k == run.lo && cells@.len() == 0),
            sampled_line(*probe, run.x, run.y, run.lo, k, cells@),
        decreases run.hi - k,
    {
        let ghost before = cells@;
        match probe(run.x, run.y, k) {
            None => {
                return Err(ConversionError::ContactTest);
            },
            Some(hit) => {
                if hit {
                    cells.push((run.x, run.y, k));
                }
                proof {
                    lemma_line_step(*probe, run.x, run.y, run.lo, k, hit, before, cells@);
                }
            },
        }
        k += 1;
    }
    Ok(cells)
}

/// One more cell of a line has been asked about.
proof fn lemma_line_step<F: Fn(i32, i32, i32) -> Option<bool>>(
    probe: F,
    x: i32,
    y: i32,
    lo: i32,
    k: i32,
    hit: bool,
    before: Seq<(i32, i32, i32)>,
    after: Seq<(i32, i32, i32)>,
)
    requires
        lo <= k < i32::MAX,
        sampled_line(probe, x, y, lo, k, before),
        probe.ensures((x, y, k), Some(hit)),
        after == if hit {
            before.push((x, y, k))
        } else {
            before
        },
    ensures
        sampled_line(probe, x, y, lo, (k + 1) as i32, after),
{
    assert forall|m: i32| lo <= m < k + 1 && !after.contains((x, y, m)) implies #[trigger] probe.ensures(
        (x, y, m),
        Some(false),
    ) by {
        if m == k {
            if hit {
                assert(after[before.len() as int] == (x, y, k));
            }
        } else if before.contains((x, y, m)) {
            let n = choose|n: int| 0 <= n < before.len() && before[n] == (x, y, m);
            assert(after[n] == (x, y, m));
        }
    }
}

/// Joins the results of the runs, in the order of the runs.
pub fn merge(parts: &Vec<Vec<(i32, i32, i32)>>) -> (cells: Vec<(i32, i32, i32)>)
    ensures
        cells@ == concat(parts@),
{
    let mut cells: Vec<(i32, i32, i32)> = Vec::new();
    let mut n: usize = 0;
    while n < parts.len()
        invariant
            n <= parts.len(),
            cells@ == concat(parts@.take(n as int)),
        decreases parts.len() - n,
    {
        let part = &parts[n];
        let mut m: usize = 0;
        while m < part.len()
            invariant
                n < parts.len(),
                part == &parts[n as int],
                m <= part.len(),
                cells@ == concat(parts@.take(n as int)) + part@.take(m as int),
            decreases part.len() - m,
        {
            cells.push(part[m]);
            proof {
                assert(part@.take(m + 1) =~= part@.take(m as int).push(part@[m as int]));
            }
            m += 1;
        }
        proof {
            assert(part@.take(m as int) =~= part@);
            assert(parts@.take(n + 1).drop_last() =~= parts@.take(n as int));
        }
        n += 1;
    }
    proof {
        assert(parts@.take(n as int) =~= parts@);
    }
    cells
}

/// A cell is among the joined results exactly when it is in one of the parts.
pub proof fn lemma_concat_contains(parts: Seq<Vec<(i32, i32, i32)>>, c: (i32, i32, i32))
    ensures
        concat(parts).contains(c) <==> exists|n: int|
            0 <= n < parts.len() && (#[trigger] parts[n])@.contains(c),
    decreases parts.len(),
{
    if parts.len() > 0 {
        let front = parts.drop_last();
        let last = parts.last()@;
        lemma_concat_contains(front, c);
        if concat(parts).contains(c) {
            let i = choose|i: int| 0 <= i < concat(parts).len() && concat(parts)[i] == c;
            if i < concat(front).len() {
                assert(concat(front)[i] == c);
                let n = choose|n: int| 0 <= n < front.len() && (#[trigger] front[n])@.contains(c);
                assert(parts[n]@.contains(c));
            } else {
                assert(last[i - concat(front).len()] == c);
                assert(parts[parts.len() - 1]@.contains(c));
            }
        }
        if exists|n: int| 0 <= n < parts.len() && (#[trigger] parts[n])@.contains(c) {
            let n = choose|n: int| 0 <= n < parts.len() && (#[trigger] parts[n])@.contains(c);
            if n < front.len() {
                assert(front[n]@.contains(c));
                let i = choose|i: int| 0 <= i < concat(front).len() && concat(front)[i] == c;
                assert(concat(parts)[i] == c);
            } else {
                let i = choose|i: int| 0 <= i < last.len() && last[i] == c;
                assert(concat(parts)[concat(front).len() + i] == c);
            }
        }
    }
}

/// No cell belongs to two runs of a partition.
pub proof fn lemma_runs_disjoint(runs: Seq<Run>, xyz: (i32, i32, i32), m: int, n: int, c: Cell)
    requires
        partitions(runs, xyz),
        0 <= m < runs.len(),
        0 <= n < runs.len(),
        runs[m].has(c),
        runs[n].has(c),
    ensures
        m == n,
{
    assert(runs[m].piece_of(xyz) && runs[n].piece_of(xyz));
    if m < n {
        assert(precedes(runs[m].start(), runs[n].start()));
    } else if n < m {
        assert(precedes(runs[n].start(), runs[m].start()));
    }
}

/// The joined results of the runs of a partition are in ascending order.
pub proof fn lemma_concat_ascending(
    xyz: (i32, i32, i32),
    runs: Seq<Run>,
    parts: Seq<Vec<(i32, i32, i32)>>,
)
    requires
        parts.len() <= runs.len(),
        forall|n: int| 0 <= n < runs.len() ==> (#[trigger] runs[n]).piece_of(xyz),
        forall|m: int, n: int|
            0 <= m < n < runs.len() ==> precedes((#[trigger] runs[m]).start(), (#[trigger] runs[n]).start()),
        forall|n: int, i: int|
            0 <= n < parts.len() && 0 <= i < parts[n]@.len() ==> runs[n].has(
                cell_of(#[trigger] parts[n]@[i]),
            ),
        forall|n: int| 0 <= n < parts.len() ==> ascending((#[trigger] parts[n])@),
    ensures
        ascending(concat(parts)),
    decreases parts.len(),
{
    if parts.len() > 0 {
        let n = parts.len() - 1;
        let front = parts.drop_last();
        let last = parts.last()@;
        lemma_concat_ascending(xyz, runs, front);
        let joined = concat(parts);
        assert forall|i: int, j: int| 0 <= i < j < joined.len() implies precedes(
            cell_of(#[trigger] joined[i]),
            cell_of(#[trigger] joined[j]),
        ) by {
            let split = concat(front).len();
            if j < split {
                assert(joined[i] == concat(front)[i] && joined[j] == concat(front)[j]);
            } else if i >= split {
                assert(joined[i] == last[i - split] && joined[j] == last[j - split]);
            } else {
                let a = joined[i];
                let b = joined[j];
                assert(concat(front)[i] == a);
                assert(last[j - split] == b);
                lemma_concat_contains(front, a);
                let m = choose|m: int| 0 <= m < front.len() && (#[trigger] front[m])@.contains(a);
                let k = choose|k: int| 0 <= k < parts[m]@.len() && parts[m]@[k] == a;
                assert(runs[m].has(cell_of(parts[m]@[k])));
                assert(runs[n].has(cell_of(parts[n]@[j - split])));
                assert(runs[m].piece_of(xyz) && runs[n].piece_of(xyz));
                assert(precedes(runs[m].start(), runs[n].start()));
            }
        }
    }
}

/// Two ascending lists that hold the same cells are the same list.
pub proof fn lemma_ascending_lists_agree(a: Seq<(i32, i32, i32)>, b: Seq<(i32, i32, i32)>)
    requires
        ascending(a),
        ascending(b),
        forall|c: (i32, i32, i32)| a.contains(c) <==> b.contains(c),
    ensures
        a == b,
    decreases a.len(),
{
    if a.len() == 0 {
        if b.len() > 0 {
            assert(b.contains(b[0]));
        }
        assert(a =~= b);
    } else {
        let top = a.last();
        assert(a.contains(top));
        let i = choose|i: int| 0 <= i < b.len() && b[i] == top;
        let other = b.last();
        assert(b.contains(other));
        let j = choose|j: int| 0 <= j < a.len() && a[j] == other;
        if i < b.len() - 1 {
            assert(precedes(cell_of(b[i]), cell_of(b[b.len() - 1])));
            if j < a.len() - 1 {
                assert(precedes(cell_of(a[j]), cell_of(a[a.len() - 1])));
            }
        }
        assert(top == other);
        let a_front = a.drop_last();
        let b_front = b.drop_last();
        assert forall|c: (i32, i32, i32)| a_front.contains(c) <==> b_front.contains(c) by {
            if a_front.contains(c) {
                let k = choose|k: int| 0 <= k < a_front.len() && a_front[k] == c;
                assert(precedes(cell_of(a[k]), cell_of(a[a.len() - 1])));
                assert(a.contains(c));
                let l = choose|l: int| 0 <= l < b.len() && b[l] == c;
                assert(b_front[l] == c);
            }
            if b_front.contains(c) {
                let k = choose|k: int| 0 <= k < b_front.len() && b_front[k] == c;
                assert(precedes(cell_of(b[k]), cell_of(b[b.len() - 1])));
                assert(b.contains(c));
                let l = choose|l: int| 0 <= l < a.len() && a[l] == c;
                assert(a_front[l] == c);
            }
        }
        lemma_ascending_lists_agree(a_front, b_front);
        assert(a =~= a_front.push(top));
        assert(b =~= b_front.push(other));
    }
}

/// Sampling run by run finds what the pass over the whole box finds: when
/// the probe answers each cell in one way only, the joined results of the
/// runs of a partition are the sequential result, cell for cell.
pub proof fn lemma_runs_agree_with_pass<F: Fn(i32, i32, i32) -> Option<bool>>(
    probe: F,
    xyz: (i32, i32, i32),
    runs: Seq<Run>,
    parts: Seq<Vec<(i32, i32, i32)>>,
    sequential: Seq<(i32, i32, i32)>,
)
    requires
        answers_once(probe, xyz),
        partitions(runs, xyz),
        parts.len() == runs.len(),
        forall|n: int| 0 <= n < runs.len() ==> sampled_run(probe, #[trigger] runs[n], parts[n]@),
        sampled(probe, xyz, sequential),
    ensures
        concat(parts) == sequential,
        concat(parts).to_set() == sequential.to_set(),
{
    assert forall|c: (i32, i32, i32)| concat(parts).contains(c) <==> sequential.contains(c) by {
        lemma_concat_contains(parts, c);
        if concat(parts).contains(c) {
            let n = choose|n: int| 0 <= n < parts.len() && (#[trigger] parts[n])@.contains(c);
            let i = choose|i: int| 0 <= i < parts[n]@.len() && parts[n]@[i] == c;
            assert(runs[n].piece_of(xyz));
            assert(sampled_run(probe, runs[n], parts[n]@));
            assert(probe.ensures(parts[n]@[i], Some(true)));
            if !sequential.contains(c) {
                assert(probe.ensures((c.0, c.1, c.2), Some(false)));
            }
        }
        if sequential.contains(c) {
            let i = choose|i: int| 0 <= i < sequential.len() && sequential[i] == c;
            assert(probe.ensures(sequential[i], Some(true)));
            assert(covered(runs, cell_of(c)));
            let n = choose|n: int| 0 <= n < runs.len() && #[trigger] runs[n].has(cell_of(c));
            assert(sampled_run(probe, runs[n], parts[n]@));
            if !parts[n]@.contains(c) {
                assert(c == (runs[n].x, runs[n].y, c.2));
                assert(probe.ensures((runs[n].x, runs[n].y, c.2), Some(false)));
            }
        }
    }
    assert forall|n: int, i: int| 0 <= n < parts.len() && 0 <= i < parts[n]@.len() implies runs[n].has(
        cell_of(#[trigger] parts[n]@[i]),
    ) by {
        assert(sampled_run(probe, runs[n], parts[n]@));
    }
    assert forall|n: int| 0 <= n < parts.len() implies ascending((#[trigger] parts[n])@) by {
        assert(sampled_run(probe, runs[n], parts[n]@));
    }
    lemma_concat_ascending(xyz, runs, parts);
    lemma_ascending_lists_agree(concat(parts), sequential);
}

} // verus!
