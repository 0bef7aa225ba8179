//! Strokes and their simplification.
//!
//! A stroke is a polyline of coloured points. Coordinates are carried as the
//! bit patterns of IEEE-754 single-precision numbers: the library stores and
//! forwards them and never measures with them. Which vertices of a raw
//! stroke deserve to stay is a geometric question that the caller answers
//! (with a Ramer-Douglas-Peucker pass); the answer arrives here as a list of
//! vertex indices, and this module checks it, applies it, and gives every
//! surviving vertex the colour the stroke started with.

use vstd::prelude::*;

verus! {

/// One sample of a stroke.
#[derive(Clone, Copy, Debug, PartialEq, Eq, Structural)]
pub struct Point {
    /// Horizontal coordinate, as the bits of a single-precision float.
    pub x: u32,
    /// Vertical coordinate, as the bits of a single-precision float.
    pub y: u32,
    /// Packed 24-bit RGB colour.
    pub color: u32,
}

/// A stroke: its points in drawing order.
pub type Line = Vec<Point>;

/// How far a vertex may stray from the simplified stroke and still be
/// dropped, in the units of the coordinates. The geometry pass is run with
/// this tolerance.
pub const TOLERANCE: u32 = 4;

/// The point `p` wearing `color`.
pub open spec fn recolor(p: Point, color: u32) -> Point {
    Point { x: p.x, y: p.y, color }
}

/// Whether `kept` names vertices of a stroke of `n` points in a way that a
/// simplification may: at least two of them, the first vertex first, the
/// last vertex last, and strictly rising in between.
pub open spec fn is_selection(kept: Seq<usize>, n: nat) -> bool {
    &&& kept.len() >= 2
    &&& kept[0] == 0
    &&& kept[kept.len() - 1] == n - 1
    &&& forall|i: int, j: int| 0 <= i < j < kept.len() ==> kept[i] < kept[j]
}

/// The selection that keeps every vertex of a stroke of `n` points.
pub open spec fn every_vertex(n: nat) -> Seq<usize> {
    Seq::new(n, |i: int| i as usize)
}

/// The vertices of `line` that `kept` names, in that order, each in the
/// colour of the stroke's first point.
pub open spec fn pick(line: Seq<Point>, kept: Seq<usize>) -> Seq<Point> {
    Seq::new(kept.len(), |i: int| recolor(line[kept[i] as int], line[0].color))
}

/// What simplification makes of `line` when the geometry pass answered
/// `kept`.
///
/// A stroke of fewer than two points is left as it is. Otherwise the named
/// vertices stay; an answer that is no selection of this stroke is not
/// trusted, and then every vertex stays. Either way the result is in one
/// colour, that of the first point.
pub open spec fn simplified(line: Seq<Point>, kept: Seq<usize>) -> Seq<Point> {
    if line.len() < 2 {
        line
    } else if is_selection(kept, line.len()) {
        pick(line, kept)
    } else {
        pick(line, every_vertex(line.len()))
    }
}

/// A selection of a stroke names only vertices that the stroke has.
pub proof fn lemma_selection_in_bounds(kept: Seq<usize>, n: nat)
    requires
        is_selection(kept, n),
    ensures
        n >= 2,
        kept.len() <= n,
        forall|i: int| 0 <= i < kept.len() ==> i <= #[trigger] kept[i] < n,
{
    let last = kept.len() - 1;
    assert forall|i: int| 0 <= i < kept.len() implies #[trigger] kept[i] < n by {
        if i < last {
            assert(kept[i] < kept[last]);
        }
    }
    lemma_rising_dominates_index(kept, last);
    assert(kept[0] < kept[last]);
}

/// In a strictly rising list that starts at zero or above, the entry at
/// position `i` is at least `i`.
proof fn lemma_rising_dominates_index(kept: Seq<usize>, i: int)
    requires
        0 <= i < kept.len(),
        forall|a: int, b: int| 0 <= a < b < kept.len() ==> kept[a] < kept[b],
    ensures
        forall|k: int| 0 <= k <= i ==> k <= #[trigger] kept[k],
    decreases i,
{
    if i > 0 {
        lemma_rising_dominates_index(kept, i - 1);
        assert(kept[i - 1] < kept[i]);
    }
}

/// Tells whether `kept` is a selection of a stroke of `n` points.
pub fn check_selection(kept: &Vec<usize>, n: usize) -> (ok: bool)
    ensures
        ok == is_selection(kept@, n as nat),
{
    let len: usize = kept.len();
    if len < 2 || n < 2 || kept[0] != 0 || kept[len - 1] != n - 1 {
        proof {
            if is_selection(kept@, n as nat) {
                lemma_selection_in_bounds(kept@, n as nat);
            }
        }
        return false;
    }
    let mut i: usize = 1;
    while i < len
        invariant
            1 <= i <= len,
            len == kept.len(),
            forall|a: int, b: int| 0 <= a < b < i ==> kept[a] < kept[b],
        decreases len - i,
    {
        if kept[i - 1] >= kept[i] {
            return false;
        }
        i += 1;
    }
    true
}

/// A copy of `line`.
pub fn copy_line(line: &Line) -> (copy: Line)
    ensures
        copy@ == line@,
{
    let mut copy: Line = Vec::new();
    let mut i: usize = 0;
    while i < line.len()
        invariant
            0 <= i <= line.len(),
            copy@ == line@.take(i as int),
        decreases line.len() - i,
    {
        copy.push(line[i]);
        assert(copy@ =~= line@.take(i + 1));
        i += 1;
    }
    assert(line@.take(line.len() as int) =~= line@);
    copy
}

/// Reduces a stroke to the vertices that the geometry pass kept.
///
/// `kept` is what the polyline simplification answered for the coordinates
/// of `line`: the indices of the vertices that stay. The result is
/// [`simplified`]: short strokes come back unchanged, a stroke of two or
/// more points keeps at least its two ends, exactly where they were, and
/// every point of it carries the colour of the first.
pub fn simplify_line(line: &Line, kept: &Vec<usize>) -> (out: Line)
    ensures
        out@ == simplified(line@, kept@),
        line.len() < 2 ==> out@ == line@,
        line.len() >= 2 ==> {
            &&& 2 <= out.len() <= line.len()
            &&& out[0] == recolor(line[0], line[0].color)
            &&& out[out.len() - 1] == recolor(line[line.len() - 1], line[0].color)
            &&& forall|i: int| 0 <= i < out.len() ==> (#[trigger] out[i]).color == line[0].color
        },
{
    let n: usize = line.len();
    if n < 2 {
        return copy_line(line);
    }
    let mut out: Line = Vec::new();
    let color: u32 = line[0].color;
    if check_selection(kept, n) {
        proof {
            lemma_selection_in_bounds(kept@, n as nat);
        }
        let m: usize = kept.len();
        let mut i: usize = 0;
        while i < m
            invariant
                0 <= i <= m,
                m == kept.len(),
                n == line.len(),
                n >= 2,
                color == line[0].color,
                forall|k: int| 0 <= k < kept.len() ==> #[trigger] kept[k] < n,
                out@ == pick(line@, kept@).subrange(0, i as int),
            decreases m - i,
        {
            let p: Point = line[kept[i]];
            out.push(Point { x: p.x, y: p.y, color });
            assert(out@ =~= pick(line@, kept@).subrange(0, i + 1));
            i += 1;
        }
        assert(out@ =~= pick(line@, kept@));
    } else {
        let mut i: usize = 0;
        while i < n
            invariant
                0 <= i <= n,
                n == line.len(),
                n >= 2,
                color == line[0].color,
                out@ == pick(line@, every_vertex(n as nat)).subrange(0, i as int),
            decreases n - i,
        {
            let p: Point = line[i];
            out.push(Point { x: p.x, y: p.y, color });
            assert(out@ =~= pick(line@, every_vertex(n as nat)).subrange(0, i + 1));
            i += 1;
        }
        assert(out@ =~= pick(line@, every_vertex(n as nat)));
    }
    out
}

/// Keeping every vertex is a selection of any stroke of two or more
/// points.
pub proof fn lemma_every_vertex_is_selection(n: nat)
    requires
        2 <= n <= usize::MAX,
    ensures
        is_selection(every_vertex(n), n),
{
}

/// A simplified stroke is settled: simplifying it once more, with a pass
/// that keeps every vertex, gives the same stroke.
pub proof fn lemma_simplified_is_settled(line: Seq<Point>, kept: Seq<usize>)
    requires
        line.len() <= usize::MAX,
    ensures
        simplified(simplified(line, kept), every_vertex(simplified(line, kept).len()))
            == simplified(line, kept),
{
    let once = simplified(line, kept);
    if line.len() >= 2 {
        if is_selection(kept, line.len()) {
            lemma_selection_in_bounds(kept, line.len());
        }
        lemma_every_vertex_is_selection(once.len());
        assert(pick(once, every_vertex(once.len())) =~= once);
    }
}

} // verus!
