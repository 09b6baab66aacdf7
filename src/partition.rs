//! Splitting one contour into the maximal runs of points that a predicate
//! keeps, with the operation of each run derived from the contour being split.
//!
//! Runs are written as half-open index ranges `(begin, end)`: a run holds the
//! points `begin..end` of the contour being split.

use crate::model::{Point, PointType, Contour, with_type, is_closed};
use vstd::prelude::*;

verus! {

/// Where the run that is open after scanning the first `n` flags began.
pub open spec fn run_start(keep: Seq<bool>, n: int) -> int
    decreases n,
{
    if n <= 0 {
        0
    } else if !keep[n - 1] {
        n
    } else {
        run_start(keep, n - 1)
    }
}

/// The runs that a dropped point closed among the first `n` flags.
pub open spec fn closed_runs(keep: Seq<bool>, n: int) -> Seq<(int, int)>
    decreases n,
{
    if n <= 0 {
        Seq::empty()
    } else if !keep[n - 1] {
        closed_runs(keep, n - 1).push((run_start(keep, n - 1), n - 1))
    } else {
        closed_runs(keep, n - 1)
    }
}

/// Every run of the scan, the final one included even where it is empty.
pub open spec fn raw_runs(keep: Seq<bool>) -> Seq<(int, int)> {
    closed_runs(keep, keep.len() as int).push((run_start(keep, keep.len() as int), keep.len() as int))
}

/// Whether the predicate drops at least one point.
pub open spec fn drops_any(keep: Seq<bool>) -> bool {
    raw_runs(keep).len() > 1
}

/// A fragment before empty ones are discarded: one run, or, across the wrap
/// seam of a closed contour, the last run followed by the first.
pub enum Piece {
    Run(int, int),
    Seam(int, int, int, int),
}

pub open spec fn run_piece(r: (int, int)) -> Piece {
    Piece::Run(r.0, r.1)
}

/// The fragments of a scan, in output order, empty ones included.
pub open spec fn pieces<C>(pts: Seq<Point<C>>, keep: Seq<bool>) -> Seq<Piece> {
    let raw = raw_runs(keep);
    if raw.len() > 1 && pts[0].ptype != PointType::Move {
        seq![Piece::Seam(raw.last().0, raw.last().1, raw[0].0, raw[0].1)] + raw.subrange(
            1,
            raw.len() - 1,
        ).map_values(|r: (int, int)| run_piece(r))
    } else {
        raw.map_values(|r: (int, int)| run_piece(r))
    }
}

/// The points a fragment takes from the point list it was cut from.
pub open spec fn piece_points<C>(pts: Seq<Point<C>>, p: Piece) -> Seq<Point<C>> {
    match p {
        Piece::Run(b, e) => pts.subrange(b, e),
        Piece::Seam(lb, le, fb, fe) => pts.subrange(lb, le) + pts.subrange(fb, fe),
    }
}

pub open spec fn piece_len(p: Piece) -> int {
    match p {
        Piece::Run(b, e) => e - b,
        Piece::Seam(lb, le, fb, fe) => (le - lb) + (fe - fb),
    }
}

/// The pieces that hold at least one point, in order.
pub open spec fn nonempty(s: Seq<Piece>) -> Seq<Piece>
    decreases s.len(),
{
    if s.len() == 0 {
        Seq::empty()
    } else if piece_len(s.last()) > 0 {
        nonempty(s.drop_last()).push(s.last())
    } else {
        nonempty(s.drop_last())
    }
}

/// The fragments that a partition returns, in order.
pub open spec fn kept_pieces<C>(pts: Seq<Point<C>>, keep: Seq<bool>) -> Seq<Piece> {
    nonempty(pieces(pts, keep))
}

/// `s` with its first point turned into a `Move` when `relabel` holds.
pub open spec fn lead_move<C>(s: Seq<Point<C>>, relabel: bool) -> Seq<Point<C>> {
    if relabel && s.len() > 0 {
        s.update(0, with_type(s[0], PointType::Move))
    } else {
        s
    }
}

/// `op` is an operation that the projector may derive for `piece` of `c`:
/// a projection of its range, or for a seam piece the combination of the
/// projections of its two ranges.
pub open spec fn op_derived<C, O, P, M>(
    c: &Contour<C, O>,
    piece: Piece,
    project: P,
    combine: M,
    op: Option<O>,
) -> bool where
    P: Fn(&Contour<C, O>, usize, usize) -> Option<O>,
    M: Fn(Option<O>, Option<O>) -> Option<O>,
 {
    match piece {
        Piece::Run(b, e) => project.ensures((c, b as usize, e as usize), op),
        Piece::Seam(lb, le, fb, fe) => exists|x: Option<O>, y: Option<O>|
            project.ensures((c, lb as usize, le as usize), x) && project.ensures(
                (c, fb as usize, fe as usize),
                y,
            ) && combine.ensures((x, y), op),
    }
}

/// `frag` is the fragment of `c` for `piece` under the flags `keep`.
pub open spec fn fragment_of<C, O, P, M>(
    c: &Contour<C, O>,
    keep: Seq<bool>,
    piece: Piece,
    project: P,
    combine: M,
    frag: Contour<C, O>,
) -> bool where
    P: Fn(&Contour<C, O>, usize, usize) -> Option<O>,
    M: Fn(Option<O>, Option<O>) -> Option<O>,
 {
    &&& frag.points@ == lead_move(piece_points(c.points@, piece), drops_any(keep))
    &&& op_derived(c, piece, project, combine, frag.operation)
}

/// `frags` is exactly what partitioning `c` by `keep` yields.
pub open spec fn is_partition<C, O, P, M>(
    c: &Contour<C, O>,
    keep: Seq<bool>,
    project: P,
    combine: M,
    frags: Seq<Contour<C, O>>,
) -> bool where
    P: Fn(&Contour<C, O>, usize, usize) -> Option<O>,
    M: Fn(Option<O>, Option<O>) -> Option<O>,
 {
    let kp = kept_pieces(c.points@, keep);
    &&& frags.len() == kp.len()
    &&& forall|i: int|
        0 <= i < frags.len() ==> #[trigger] fragment_of(c, keep, kp[i], project, combine, frags[i])
}

proof fn lemma_run_bounds(keep: Seq<bool>, n: int)
    requires
        0 <= n <= keep.len(),
    ensures
        0 <= run_start(keep, n) <= n,
        forall|k: int|
            0 <= k < closed_runs(keep, n).len() ==> 0 <= (#[trigger] closed_runs(keep, n)[k]).0
                <= closed_runs(keep, n)[k].1 < run_start(keep, n),
    decreases n,
{
    if n > 0 {
        lemma_run_bounds(keep, n - 1);
        let prev = closed_runs(keep, n - 1);
        if !keep[n - 1] {
            assert(closed_runs(keep, n) == prev.push((run_start(keep, n - 1), n - 1)));
            assert forall|k: int| 0 <= k < closed_runs(keep, n).len() implies 0 <= (
            #[trigger] closed_runs(keep, n)[k]).0 <= closed_runs(keep, n)[k].1 < run_start(
                keep,
                n,
            ) by {
                if k < prev.len() {
                    assert(closed_runs(keep, n)[k] == prev[k]);
                }
            }
        }
    }
}

proof fn lemma_raw_bounds(keep: Seq<bool>)
    ensures
        raw_runs(keep).len() >= 1,
        forall|k: int|
            0 <= k < raw_runs(keep).len() ==> 0 <= (#[trigger] raw_runs(keep)[k]).0
                <= raw_runs(keep)[k].1 <= keep.len(),
{
    lemma_run_bounds(keep, keep.len() as int);
}

/// Appends the points `begin..end` of `pts` to `out`.
pub(crate) fn copy_range<C: Copy>(pts: &Vec<Point<C>>, begin: usize, end: usize, out: &mut Vec<Point<C>>)
    requires
        begin <= end <= pts.len(),
    ensures
        final(out)@ == old(out)@ + pts@.subrange(begin as int, end as int),
{
    let mut i = begin;
    while i < end
        invariant
            begin <= i <= end <= pts.len(),
            out@ == old(out)@ + pts@.subrange(begin as int, i as int),
        decreases end - i,
    {
        out.push(pts[i]);
        i = i + 1;
        assert(out@ =~= old(out)@ + pts@.subrange(begin as int, i as int));
    }
}

/// Pushes `pts` as a fragment onto `out` unless it is empty, first turning its
/// first point into a `Move` when `relabel` holds.
fn push_fragment<C: Copy, O>(
    out: &mut Vec<Contour<C, O>>,
    pts: Vec<Point<C>>,
    op: Option<O>,
    relabel: bool,
)
    ensures
        pts.len() == 0 ==> final(out)@ == old(out)@,
        pts.len() > 0 ==> final(out)@ == old(out)@.push(
            Contour { points: final(out)@.last().points, operation: op },
        ),
        pts.len() > 0 ==> final(out)@.last().points@ == lead_move(pts@, relabel),
{
    if pts.len() > 0 {
        let mut pts = pts;
        if relabel {
            let mut first = pts[0];
            first.ptype = PointType::Move;
            pts.set(0, first);
        }
        out.push(Contour { points: pts, operation: op });
    }
}

proof fn lemma_nonempty_step(s: Seq<Piece>, j: int)
    requires
        0 <= j < s.len(),
    ensures
        piece_len(s[j]) > 0 ==> nonempty(s.take(j + 1)) == nonempty(s.take(j)).push(s[j]),
        piece_len(s[j]) <= 0 ==> nonempty(s.take(j + 1)) == nonempty(s.take(j)),
{
    assert(s.take(j + 1).drop_last() =~= s.take(j));
    assert(s.take(j + 1).last() == s[j]);
}

/// Splits `contour` into the maximal runs of points whose flag in `keep` is
/// true. Each dropped point closes the current run; the run after the last
/// dropped point closes at the end. On a closed contour with a dropped point
/// the last run and the first meet across the wrap seam and become one
/// fragment, the last run's points first, that takes the first place. Empty
/// fragments are discarded, and where a point was dropped each fragment
/// starts with a `Move`. `project(contour, begin, end)` gives the operation of
/// the run `begin..end`; `combine` joins the operations of the two runs of a
/// seam fragment.
pub fn partition<C: Copy, O, P, M>(
    contour: &Contour<C, O>,
    keep: &Vec<bool>,
    project: &P,
    combine: &M,
) -> (r: Vec<Contour<C, O>>) where
    P: Fn(&Contour<C, O>, usize, usize) -> Option<O>,
    M: Fn(Option<O>, Option<O>) -> Option<O>,

    requires
        keep.len() == contour.points.len(),
        forall|b: usize, e: usize| #[trigger] project.requires((contour, b, e)),
        forall|x: Option<O>, y: Option<O>| #[trigger] combine.requires((x, y)),
    ensures
        is_partition(contour, keep@, *project, *combine, r@),
{
    let n = contour.points.len();
    let mut runs: Vec<(usize, usize)> = Vec::new();
    let mut begin: usize = 0;
    let mut i: usize = 0;
    while i < n
        invariant
            n == contour.points.len() == keep.len(),
            0 <= i <= n,
            begin as int == run_start(keep@, i as int),
            runs@.len() == closed_runs(keep@, i as int).len(),
            forall|k: int|
                0 <= k < runs@.len() ==> (#[trigger] runs@[k]).0 as int == closed_runs(
                    keep@,
                    i as int,
                )[k].0 && runs@[k].1 as int == closed_runs(keep@, i as int)[k].1,
        decreases n - i,
    {
        proof {
            lemma_run_bounds(keep@, i as int);
        }
        if !keep[i] {
            runs.push((begin, i));
            begin = i + 1;
        }
        i = i + 1;
    }
    runs.push((begin, n));
    let ghost raw = raw_runs(keep@);
    let ghost ps = pieces(contour.points@, keep@);
    proof {
        lemma_raw_bounds(keep@);
        assert(runs@.len() == raw.len());
        assert forall|k: int| 0 <= k < runs@.len() implies (#[trigger] runs@[k]).0 as int
            == raw[k].0 && runs@[k].1 as int == raw[k].1 by {}
    }
    let dropped = runs.len() > 1;
    let seam = dropped && contour.points[0].ptype != PointType::Move;
    let mut result: Vec<Contour<C, O>> = Vec::new();
    let mut k: usize = 0;
    if seam {
        let last = runs[runs.len() - 1];
        let first = runs[0];
        let mut pts: Vec<Point<C>> = Vec::new();
        copy_range(&contour.points, last.0, last.1, &mut pts);
        copy_range(&contour.points, first.0, first.1, &mut pts);
        let op_last = project(contour, last.0, last.1);
        let op_first = project(contour, first.0, first.1);
        let op = combine(op_last, op_first);
        proof {
            assert(ps[0] == Piece::Seam(raw.last().0, raw.last().1, raw[0].0, raw[0].1));
            assert(pts@ == piece_points(contour.points@, ps[0]));
        }
        push_fragment(&mut result, pts, op, dropped);
        proof {
            lemma_nonempty_step(ps, 0);
            assert(ps.take(0) =~= Seq::<Piece>::empty());
        }
        k = 1;
    }
    let stop: usize = if seam {
        runs.len() - 1
    } else {
        runs.len()
    };
    proof {
        if !seam {
            assert(ps.take(0) =~= Seq::<Piece>::empty());
        }
    }
    while k < stop
        invariant
            runs@.len() == raw.len(),
            forall|q: int|
                0 <= q < runs@.len() ==> (#[trigger] runs@[q]).0 as int == raw[q].0 && runs@[q].1
                    as int == raw[q].1,
            forall|q: int|
                0 <= q < raw.len() ==> 0 <= (#[trigger] raw[q]).0 <= raw[q].1 <= keep@.len(),
            raw == raw_runs(keep@),
            ps == pieces(contour.points@, keep@),
            dropped == (raw.len() > 1),
            seam == (raw.len() > 1 && contour.points@[0].ptype != PointType::Move),
            stop as int == (if seam {
                runs@.len() - 1
            } else {
                runs@.len() as int
            }),
            ps.len() == stop,
            (if seam {
                1int
            } else {
                0int
            }) <= k <= stop,
            n == contour.points.len() == keep.len(),
            forall|b: usize, e: usize| #[trigger] project.requires((contour, b, e)),
            forall|x: Option<O>, y: Option<O>| #[trigger] combine.requires((x, y)),
            result@.len() == nonempty(ps.take(k as int)).len(),
            forall|q: int|
                0 <= q < result@.len() ==> #[trigger] fragment_of(
                    contour,
                    keep@,
                    nonempty(ps.take(k as int))[q],
                    *project,
                    *combine,
                    result@[q],
                ),
        decreases stop - k,
    {
        let run = runs[k];
        let mut pts: Vec<Point<C>> = Vec::new();
        copy_range(&contour.points, run.0, run.1, &mut pts);
        let op = project(contour, run.0, run.1);
        proof {
            assert(ps[k as int] == Piece::Run(raw[k as int].0, raw[k as int].1));
            assert(pts@ == piece_points(contour.points@, ps[k as int]));
            lemma_nonempty_step(ps, k as int);
        }
        push_fragment(&mut result, pts, op, dropped);
        k = k + 1;
    }
    proof {
        assert(ps.take(stop as int) =~= ps);
    }
    result
}

/// The points whose flag is true among the first `n`, in order.
pub open spec fn kept_points<C>(pts: Seq<Point<C>>, keep: Seq<bool>, n: int) -> Seq<Point<C>>
    decreases n,
{
    if n <= 0 {
        Seq::empty()
    } else if keep[n - 1] {
        kept_points(pts, keep, n - 1).push(pts[n - 1])
    } else {
        kept_points(pts, keep, n - 1)
    }
}

/// The points of all fragments, one fragment after the other.
pub open spec fn concat_points<C, O>(frags: Seq<Contour<C, O>>) -> Seq<Point<C>>
    decreases frags.len(),
{
    if frags.len() == 0 {
        Seq::empty()
    } else {
        concat_points(frags.drop_last()) + frags.last().points@
    }
}

/// `s` with every point's type set to `Move`: what remains of the points
/// once their types are set aside.
pub open spec fn as_moves<C>(s: Seq<Point<C>>) -> Seq<Point<C>> {
    s.map_values(|p: Point<C>| with_type(p, PointType::Move))
}

spec fn runs_concat<C>(pts: Seq<Point<C>>, runs: Seq<(int, int)>) -> Seq<Point<C>>
    decreases runs.len(),
{
    if runs.len() == 0 {
        Seq::empty()
    } else {
        runs_concat(pts, runs.drop_last()) + pts.subrange(runs.last().0, runs.last().1)
    }
}

spec fn pieces_concat<C>(pts: Seq<Point<C>>, ps: Seq<Piece>) -> Seq<Point<C>>
    decreases ps.len(),
{
    if ps.len() == 0 {
        Seq::empty()
    } else {
        pieces_concat(pts, ps.drop_last()) + piece_points(pts, ps.last())
    }
}

proof fn lemma_runs_cover<C>(pts: Seq<Point<C>>, keep: Seq<bool>, n: int)
    requires
        0 <= n <= keep.len(),
        keep.len() == pts.len(),
    ensures
        runs_concat(pts, closed_runs(keep, n)) + pts.subrange(run_start(keep, n), n) == kept_points(
            pts,
            keep,
            n,
        ),
    decreases n,
{
    if n > 0 {
        lemma_run_bounds(keep, n - 1);
        lemma_runs_cover(pts, keep, n - 1);
        let rs = run_start(keep, n - 1);
        let prev = closed_runs(keep, n - 1);
        if keep[n - 1] {
            assert(pts.subrange(rs, n) =~= pts.subrange(rs, n - 1).push(pts[n - 1]));
            assert(runs_concat(pts, prev) + pts.subrange(rs, n) =~= (runs_concat(pts, prev)
                + pts.subrange(rs, n - 1)).push(pts[n - 1]));
        } else {
            let cur = prev.push((rs, n - 1));
            assert(cur.drop_last() =~= prev);
            assert(runs_concat(pts, cur) == runs_concat(pts, prev) + pts.subrange(rs, n - 1));
            assert(pts.subrange(n, n) =~= Seq::<Point<C>>::empty());
            assert(runs_concat(pts, cur) + pts.subrange(n, n) =~= runs_concat(pts, cur));
        }
    } else {
        assert(pts.subrange(0, 0) =~= Seq::<Point<C>>::empty());
        assert(Seq::<Point<C>>::empty() + Seq::<Point<C>>::empty() =~= Seq::<Point<C>>::empty());
    }
}

proof fn lemma_runs_as_pieces<C>(pts: Seq<Point<C>>, runs: Seq<(int, int)>)
    ensures
        pieces_concat(pts, runs.map_values(|r: (int, int)| run_piece(r))) == runs_concat(pts, runs),
    decreases runs.len(),
{
    if runs.len() > 0 {
        let f = |r: (int, int)| run_piece(r);
        assert(runs.map_values(f).drop_last() =~= runs.drop_last().map_values(f));
        lemma_runs_as_pieces(pts, runs.drop_last());
    }
}

/// Each range of `p` lies within a list of `len` points.
pub open spec fn piece_in_bounds(p: Piece, len: int) -> bool {
    match p {
        Piece::Run(b, e) => 0 <= b <= e <= len,
        Piece::Seam(lb, le, fb, fe) => 0 <= lb <= le <= len && 0 <= fb <= fe <= len,
    }
}

proof fn lemma_nonempty_concat<C>(pts: Seq<Point<C>>, s: Seq<Piece>)
    requires
        forall|k: int| 0 <= k < s.len() ==> piece_in_bounds(#[trigger] s[k], pts.len() as int),
    ensures
        pieces_concat(pts, nonempty(s)) == pieces_concat(pts, s),
    decreases s.len(),
{
    if s.len() > 0 {
        let rest = s.drop_last();
        lemma_nonempty_concat(pts, rest);
        if piece_len(s.last()) <= 0 {
            assert(piece_in_bounds(s[s.len() - 1], pts.len() as int));
            assert(piece_points(pts, s.last()) =~= Seq::<Point<C>>::empty());
            assert(pieces_concat(pts, s) =~= pieces_concat(pts, rest));
        } else {
            assert(nonempty(s).drop_last() =~= nonempty(rest));
        }
    }
}

proof fn lemma_as_moves_concat<C>(a: Seq<Point<C>>, b: Seq<Point<C>>)
    ensures
        as_moves(a + b) == as_moves(a) + as_moves(b),
{
    assert(as_moves(a + b) =~= as_moves(a) + as_moves(b));
}

proof fn lemma_fragments_concat<C, O>(
    pts: Seq<Point<C>>,
    kp: Seq<Piece>,
    frags: Seq<Contour<C, O>>,
    relabel: bool,
)
    requires
        frags.len() == kp.len(),
        forall|i: int|
            0 <= i < frags.len() ==> (#[trigger] frags[i]).points@ == lead_move(
                piece_points(pts, kp[i]),
                relabel,
            ),
    ensures
        as_moves(concat_points(frags)) == as_moves(pieces_concat(pts, kp)),
    decreases frags.len(),
{
    if frags.len() > 0 {
        lemma_fragments_concat(pts, kp.drop_last(), frags.drop_last(), relabel);
        let s = piece_points(pts, kp.last());
        assert(frags.last() == frags[frags.len() - 1]);
        assert(as_moves(lead_move(s, relabel)) =~= as_moves(s));
        lemma_as_moves_concat(concat_points(frags.drop_last()), frags.last().points@);
        lemma_as_moves_concat(pieces_concat(pts, kp.drop_last()), s);
    }
}

/// Partitioning an open contour (or an empty one) keeps the kept points in
/// their order in the contour: one fragment after the other, the fragments hold
/// exactly the points whose flag is true, in order. Point types are set
/// aside: a fragment's first point may have become a `Move`.
pub proof fn lemma_partition_keeps_order<C, O, P, M>(
    c: &Contour<C, O>,
    keep: Seq<bool>,
    project: P,
    combine: M,
    frags: Seq<Contour<C, O>>,
) where
    P: Fn(&Contour<C, O>, usize, usize) -> Option<O>,
    M: Fn(Option<O>, Option<O>) -> Option<O>,

    requires
        keep.len() == c.points@.len(),
        !is_closed(c.points@),
        is_partition(c, keep, project, combine, frags),
    ensures
        as_moves(concat_points(frags)) == as_moves(
            kept_points(c.points@, keep, keep.len() as int),
        ),
{
    let pts = c.points@;
    let raw = raw_runs(keep);
    let closed = closed_runs(keep, keep.len() as int);
    lemma_raw_bounds(keep);
    lemma_runs_cover(pts, keep, keep.len() as int);
    assert(raw.drop_last() =~= closed);
    lemma_runs_as_pieces(pts, raw);
    let ps = pieces(pts, keep);
    assert(ps == raw.map_values(|r: (int, int)| run_piece(r)));
    assert forall|k: int| 0 <= k < ps.len() implies piece_in_bounds(
        #[trigger] ps[k],
        pts.len() as int,
    ) by {
        assert(ps[k] == run_piece(raw[k]));
    }
    lemma_nonempty_concat(pts, ps);
    let kp = kept_pieces(pts, keep);
    assert forall|i: int| 0 <= i < frags.len() implies (#[trigger] frags[i]).points@ == lead_move(
        piece_points(pts, kp[i]),
        drops_any(keep),
    ) by {
        assert(fragment_of(c, keep, kp[i], project, combine, frags[i]));
    }
    lemma_fragments_concat(pts, kp, frags, drops_any(keep));
}

/// With every flag true, a contour of at least one point yields one fragment,
/// the whole contour, and no point is relabelled.
pub proof fn lemma_keep_all<C>(pts: Seq<Point<C>>, keep: Seq<bool>)
    requires
        keep.len() == pts.len(),
        pts.len() > 0,
        forall|k: int| 0 <= k < keep.len() ==> #[trigger] keep[k],
    ensures
        kept_pieces(pts, keep) == seq![Piece::Run(0, pts.len() as int)],
        !drops_any(keep),
{
    lemma_all_kept(keep, keep.len() as int);
    let raw = raw_runs(keep);
    assert(raw =~= seq![(0int, keep.len() as int)]);
    let ps = pieces(pts, keep);
    assert(ps =~= seq![Piece::Run(0, pts.len() as int)]);
    assert(ps.drop_last() =~= Seq::<Piece>::empty());
    assert(ps.drop_last().len() == 0);
    assert(nonempty(ps.drop_last()) == Seq::<Piece>::empty());
    assert(piece_len(ps.last()) > 0);
    assert(nonempty(ps) == nonempty(ps.drop_last()).push(ps.last()));
    assert(nonempty(ps) =~= seq![Piece::Run(0, pts.len() as int)]);
}

proof fn lemma_all_kept(keep: Seq<bool>, n: int)
    requires
        0 <= n <= keep.len(),
        forall|k: int| 0 <= k < keep.len() ==> #[trigger] keep[k],
    ensures
        closed_runs(keep, n) == Seq::<(int, int)>::empty(),
        run_start(keep, n) == 0,
    decreases n,
{
    if n > 0 {
        lemma_all_kept(keep, n - 1);
    }
}

proof fn lemma_pieces_concat_append<C>(pts: Seq<Point<C>>, a: Seq<Piece>, b: Seq<Piece>)
    ensures
        pieces_concat(pts, a + b) == pieces_concat(pts, a) + pieces_concat(pts, b),
    decreases b.len(),
{
    if b.len() == 0 {
        assert(a + b =~= a);
        assert(pieces_concat(pts, a) + pieces_concat(pts, b) =~= pieces_concat(pts, a));
    } else {
        lemma_pieces_concat_append(pts, a, b.drop_last());
        assert((a + b).drop_last() =~= a + b.drop_last());
        assert((a + b).last() == b.last());
        assert(pieces_concat(pts, a) + pieces_concat(pts, b) =~= pieces_concat(pts, a)
            + pieces_concat(pts, b.drop_last()) + piece_points(pts, b.last()));
    }
}

proof fn lemma_pieces_concat_single<C>(pts: Seq<Point<C>>, p: Piece)
    ensures
        pieces_concat(pts, seq![p]) == piece_points(pts, p),
{
    let s = seq![p];
    assert(s.drop_last() =~= Seq::<Piece>::empty());
    assert(s.last() == p);
    assert(pieces_concat(pts, s.drop_last()) == Seq::<Point<C>>::empty());
    assert(pieces_concat(pts, s) == pieces_concat(pts, s.drop_last()) + piece_points(pts, p));
    assert(Seq::<Point<C>>::empty() + piece_points(pts, p) =~= piece_points(pts, p));
}

/// Every piece of a scan lies within the point list.
pub proof fn lemma_pieces_in_bounds<C>(pts: Seq<Point<C>>, keep: Seq<bool>)
    requires
        keep.len() == pts.len(),
    ensures
        forall|k: int|
            0 <= k < pieces(pts, keep).len() ==> piece_in_bounds(
                #[trigger] pieces(pts, keep)[k],
                pts.len() as int,
            ),
{
    lemma_raw_bounds(keep);
    let raw = raw_runs(keep);
    let ps = pieces(pts, keep);
    if raw.len() > 1 && pts[0].ptype != PointType::Move {
        assert forall|k: int| 0 <= k < ps.len() implies piece_in_bounds(
            #[trigger] ps[k],
            pts.len() as int,
        ) by {
            if k > 0 {
                assert(ps[k] == run_piece(raw[k]));
            }
        }
    } else {
        assert forall|k: int| 0 <= k < ps.len() implies piece_in_bounds(
            #[trigger] ps[k],
            pts.len() as int,
        ) by {
            assert(ps[k] == run_piece(raw[k]));
        }
    }
}

/// `s` with its last `k` elements moved to the front.
pub open spec fn rotate_tail<T>(s: Seq<T>, k: int) -> Seq<T> {
    s.subrange(s.len() - k, s.len() as int) + s.subrange(0, s.len() - k)
}

/// How many kept points a seam fragment moves to the front: those after the
/// last dropped point of a closed contour.
pub open spec fn seam_shift<C>(pts: Seq<Point<C>>, keep: Seq<bool>) -> int {
    if drops_any(keep) && is_closed(pts) {
        keep.len() - run_start(keep, keep.len() as int)
    } else {
        0
    }
}

/// The pieces of a scan hold exactly the kept points; on a closed contour
/// the seam moves those after the last dropped point to the front.
proof fn lemma_pieces_cover<C>(pts: Seq<Point<C>>, keep: Seq<bool>)
    requires
        keep.len() == pts.len(),
    ensures
        0 <= seam_shift(pts, keep) <= kept_points(pts, keep, keep.len() as int).len(),
        pieces_concat(pts, pieces(pts, keep)) == rotate_tail(
            kept_points(pts, keep, keep.len() as int),
            seam_shift(pts, keep),
        ),
{
    let raw = raw_runs(keep);
    let kept = kept_points(pts, keep, keep.len() as int);
    lemma_raw_bounds(keep);
    lemma_run_bounds(keep, keep.len() as int);
    lemma_runs_cover(pts, keep, keep.len() as int);
    assert(raw.drop_last() =~= closed_runs(keep, keep.len() as int));
    assert(pts.subrange(keep.len() as int, keep.len() as int) =~= Seq::<Point<C>>::empty());
    lemma_runs_as_pieces(pts, raw);
    let all = raw.map_values(|r: (int, int)| run_piece(r));
    if raw.len() > 1 && pts[0].ptype != PointType::Move {
        let k = raw.len() - 1;
        let first = run_piece(raw[0]);
        let last = run_piece(raw[k]);
        let mid = raw.subrange(1, k).map_values(|r: (int, int)| run_piece(r));
        assert(all =~= seq![first] + mid + seq![last]);
        lemma_pieces_concat_append(pts, seq![first] + mid, seq![last]);
        lemma_pieces_concat_append(pts, seq![first], mid);
        lemma_pieces_concat_single(pts, first);
        lemma_pieces_concat_single(pts, last);
        let seam = Piece::Seam(raw[k].0, raw[k].1, raw[0].0, raw[0].1);
        assert(pieces(pts, keep) == seq![seam] + mid);
        lemma_pieces_concat_append(pts, seq![seam], mid);
        lemma_pieces_concat_single(pts, seam);
        let f = pts.subrange(raw[0].0, raw[0].1);
        let l = pts.subrange(raw[k].0, raw[k].1);
        let m = pieces_concat(pts, mid);
        assert(pieces_concat(pts, all) == f + m + l);
        assert(kept == f + m + l);
        assert(pieces_concat(pts, pieces(pts, keep)) == l + f + m);
        assert(raw[k] == (run_start(keep, keep.len() as int), keep.len() as int));
        assert(l.len() == seam_shift(pts, keep));
        assert(kept.subrange(kept.len() - l.len(), kept.len() as int) =~= l);
        assert(kept.subrange(0, kept.len() - l.len()) =~= f + m);
        assert(l + f + m =~= l + (f + m));
    } else {
        assert(pieces(pts, keep) == all);
        assert(rotate_tail(kept, 0) =~= kept);
    }
}

/// Where at most one point is kept, the pieces of a scan hold exactly the
/// kept points, whichever way the seam turned them.
proof fn lemma_pieces_cover_small<C>(pts: Seq<Point<C>>, keep: Seq<bool>)
    requires
        keep.len() == pts.len(),
        kept_points(pts, keep, keep.len() as int).len() <= 1,
    ensures
        pieces_concat(pts, pieces(pts, keep)) == kept_points(pts, keep, keep.len() as int),
{
    lemma_pieces_cover(pts, keep);
    let kept = kept_points(pts, keep, keep.len() as int);
    assert(rotate_tail(kept, seam_shift(pts, keep)) =~= kept);
}

/// Partitioning a closed contour keeps the kept points in their cyclic
/// order: one fragment after the other, the fragments hold the kept points
/// that follow the last dropped point, then the kept points before it. Point
/// types are set aside: a fragment's first point may have become a `Move`.
pub proof fn lemma_partition_closed_rotates<C, O, P, M>(
    c: &Contour<C, O>,
    keep: Seq<bool>,
    project: P,
    combine: M,
    frags: Seq<Contour<C, O>>,
) where
    P: Fn(&Contour<C, O>, usize, usize) -> Option<O>,
    M: Fn(Option<O>, Option<O>) -> Option<O>,

    requires
        keep.len() == c.points@.len(),
        is_closed(c.points@),
        is_partition(c, keep, project, combine, frags),
    ensures
        as_moves(concat_points(frags)) == as_moves(
            rotate_tail(
                kept_points(c.points@, keep, keep.len() as int),
                seam_shift(c.points@, keep),
            ),
        ),
{
    let pts = c.points@;
    lemma_pieces_cover(pts, keep);
    lemma_pieces_in_bounds(pts, keep);
    lemma_nonempty_concat(pts, pieces(pts, keep));
    let kp = kept_pieces(pts, keep);
    assert forall|i: int| 0 <= i < frags.len() implies (#[trigger] frags[i]).points@ == lead_move(
        piece_points(pts, kp[i]),
        drops_any(keep),
    ) by {
        assert(fragment_of(c, keep, kp[i], project, combine, frags[i]));
    }
    lemma_fragments_concat(pts, kp, frags, drops_any(keep));
}

/// Where the pieces hold at most one point, the non-empty ones are none or
/// one, and that one holds all of it.
proof fn lemma_nonempty_of_short<C>(pts: Seq<Point<C>>, s: Seq<Piece>)
    requires
        forall|k: int| 0 <= k < s.len() ==> piece_in_bounds(#[trigger] s[k], pts.len() as int),
        pieces_concat(pts, s).len() <= 1,
    ensures
        pieces_concat(pts, s).len() == 0 ==> nonempty(s).len() == 0,
        pieces_concat(pts, s).len() == 1 ==> nonempty(s).len() == 1 && piece_points(
            pts,
            nonempty(s)[0],
        ) == pieces_concat(pts, s),
    decreases s.len(),
{
    if s.len() > 0 {
        let rest = s.drop_last();
        let last = s.last();
        assert(piece_in_bounds(s[s.len() - 1], pts.len() as int));
        assert(piece_points(pts, last).len() == piece_len(last));
        lemma_nonempty_of_short(pts, rest);
        if piece_len(last) <= 0 {
            assert(pieces_concat(pts, s) =~= pieces_concat(pts, rest));
        } else {
            assert(pieces_concat(pts, rest).len() == 0);
            assert(pieces_concat(pts, s) =~= piece_points(pts, last));
        }
    }
}

/// The points kept where exactly the flag at `j` is true, among the first `n`.
proof fn lemma_kept_single<C>(pts: Seq<Point<C>>, keep: Seq<bool>, j: int, n: int)
    requires
        keep.len() == pts.len(),
        0 <= n <= keep.len(),
        forall|k: int| 0 <= k < keep.len() ==> #[trigger] keep[k] == (k == j),
    ensures
        kept_points(pts, keep, n) == (if 0 <= j < n {
            seq![pts[j]]
        } else {
            Seq::<Point<C>>::empty()
        }),
    decreases n,
{
    if n > 0 {
        lemma_kept_single(pts, keep, j, n - 1);
        if n - 1 == j {
            assert(Seq::<Point<C>>::empty().push(pts[j]) =~= seq![pts[j]]);
        }
    }
}

/// Where exactly the flag at `j` is true (with `j` in range) the partition
/// has one fragment, holding the point at `j`; where no flag is true (`j`
/// out of range) it has none.
pub proof fn lemma_single_kept<C>(pts: Seq<Point<C>>, keep: Seq<bool>, j: int)
    requires
        keep.len() == pts.len(),
        forall|k: int| 0 <= k < keep.len() ==> #[trigger] keep[k] == (k == j),
    ensures
        0 <= j < pts.len() ==> kept_pieces(pts, keep).len() == 1 && piece_points(
            pts,
            kept_pieces(pts, keep)[0],
        ) == seq![pts[j]],
        !(0 <= j < pts.len()) ==> kept_pieces(pts, keep).len() == 0,
{
    lemma_kept_single(pts, keep, j, keep.len() as int);
    lemma_pieces_cover_small(pts, keep);
    lemma_pieces_in_bounds(pts, keep);
    lemma_nonempty_of_short(pts, pieces(pts, keep));
}

} // verus!
