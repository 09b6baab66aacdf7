//! The editor state that selection edits work on: the active outline, the
//! active contour/point cursor, the selection and the clipboard; and copy,
//! delete and paste of the selection.

use crate::model::{Contour, Point, PointType, with_type};
use crate::partition::{
    Piece, copy_range, drops_any, fragment_of, kept_pieces, lemma_keep_all, lemma_single_kept,
    partition,
};
use vstd::prelude::*;

verus! {

/// A detached set of contours, independent of any layer.
#[derive(Clone, Debug, PartialEq)]
pub struct Clipboard<C, O> {
    pub name: String,
    pub visible: bool,
    pub outline: Vec<Contour<C, O>>,
}

/// The active layer's outline with the state that refers into it by index.
#[derive(Clone, Debug, PartialEq)]
pub struct Editor<C, O> {
    pub outline: Vec<Contour<C, O>>,
    pub contour_idx: Option<usize>,
    pub point_idx: Option<usize>,
    /// Selected points as (contour index, point index) pairs.
    pub selected: Vec<(usize, usize)>,
    pub clipboard: Option<Clipboard<C, O>>,
}

/// The flags that keep, in contour `ci` of `len` points, the selected points
/// (`want` true) or the unselected ones (`want` false).
pub open spec fn keep_flags(sel: Seq<(usize, usize)>, ci: int, len: int, want: bool) -> Seq<bool> {
    Seq::new(len as nat, |pi: int| sel.contains((ci as usize, pi as usize)) == want)
}

/// The flags of contour `ci` of `outline`.
pub open spec fn contour_flags<C, O>(
    outline: Seq<Contour<C, O>>,
    sel: Seq<(usize, usize)>,
    ci: int,
    want: bool,
) -> Seq<bool> {
    keep_flags(sel, ci, outline[ci].points@.len() as int, want)
}

/// How many fragments contour `ci` yields.
pub open spec fn frag_count<C, O>(
    outline: Seq<Contour<C, O>>,
    sel: Seq<(usize, usize)>,
    ci: int,
    want: bool,
) -> int {
    kept_pieces(outline[ci].points@, contour_flags(outline, sel, ci, want)).len() as int
}

/// How many fragments the first `n` contours yield together.
pub open spec fn frag_offset<C, O>(
    outline: Seq<Contour<C, O>>,
    sel: Seq<(usize, usize)>,
    n: int,
    want: bool,
) -> int
    decreases n,
{
    if n <= 0 {
        0
    } else {
        frag_offset(outline, sel, n - 1, want) + frag_count(outline, sel, n - 1, want)
    }
}

/// `r` is the concatenation, contour by contour, of the fragments that
/// partitioning each contour of `outline` by its flags yields.
pub open spec fn is_outline_partition<C, O, P, M>(
    outline: Seq<Contour<C, O>>,
    sel: Seq<(usize, usize)>,
    want: bool,
    project: P,
    combine: M,
    r: Seq<Contour<C, O>>,
) -> bool where
    P: Fn(&Contour<C, O>, usize, usize) -> Option<O>,
    M: Fn(Option<O>, Option<O>) -> Option<O>,
 {
    &&& r.len() == frag_offset(outline, sel, outline.len() as int, want)
    &&& forall|ci: int, j: int|
        0 <= ci < outline.len() && 0 <= j < frag_count(outline, sel, ci, want) ==> #[trigger] fragment_of(
            &outline[ci],
            contour_flags(outline, sel, ci, want),
            kept_pieces(outline[ci].points@, contour_flags(outline, sel, ci, want))[j],
            project,
            combine,
            r[frag_offset(outline, sel, ci, want) + j],
        )
}

/// `b` is a copy of `a`: the same points, and a clone of its operation.
pub open spec fn is_copy_of<C, O: Clone>(a: Contour<C, O>, b: Contour<C, O>) -> bool {
    &&& b.points@ == a.points@
    &&& a.operation.is_none() ==> b.operation.is_none()
    &&& a.operation.is_some() ==> b.operation.is_some() && cloned(
        a.operation.unwrap(),
        b.operation.unwrap(),
    )
}

/// `after` is `before` once its selection has been copied: the clipboard is
/// a visible, unnamed layer whose outline is the partition of the outline
/// that keeps the selected points; nothing else changed.
pub open spec fn copied<C, O, P, M>(
    before: Editor<C, O>,
    after: Editor<C, O>,
    project: P,
    combine: M,
) -> bool where
    P: Fn(&Contour<C, O>, usize, usize) -> Option<O>,
    M: Fn(Option<O>, Option<O>) -> Option<O>,
 {
    &&& after.outline@ == before.outline@
    &&& after.selected@ == before.selected@
    &&& after.contour_idx == before.contour_idx
    &&& after.point_idx == before.point_idx
    &&& after.clipboard.is_some()
    &&& after.clipboard.unwrap().name@ == Seq::<char>::empty()
    &&& after.clipboard.unwrap().visible
    &&& is_outline_partition(
        before.outline@,
        before.selected@,
        true,
        project,
        combine,
        after.clipboard.unwrap().outline@,
    )
}

/// `after` is `before` once the clipboard has been pasted: a copy of each
/// clipboard contour is appended to the outline, exactly their points are
/// selected and the cursor is cleared. Without a clipboard nothing changed.
pub open spec fn pasted<C, O: Clone>(before: Editor<C, O>, after: Editor<C, O>) -> bool {
    &&& after.clipboard == before.clipboard
    &&& before.clipboard.is_none() ==> after == before
    &&& before.clipboard.is_some() ==> ({
        let clip = before.clipboard.unwrap().outline@;
        let n = before.outline@.len();
        &&& after.outline@.len() == n + clip.len()
        &&& after.outline@.subrange(0, n as int) == before.outline@
        &&& forall|k: int|
            0 <= k < clip.len() ==> is_copy_of(#[trigger] clip[k], after.outline@[n + k])
        &&& forall|ci: usize, pi: usize|
            #[trigger] after.selected@.contains((ci, pi)) <==> (n <= ci < n + clip.len() && pi
                < clip[ci - n].points@.len())
        &&& after.contour_idx.is_none()
        &&& after.point_idx.is_none()
    })
}

proof fn lemma_offset_monotone<C, O>(
    outline: Seq<Contour<C, O>>,
    sel: Seq<(usize, usize)>,
    a: int,
    b: int,
    want: bool,
)
    requires
        0 <= a <= b,
    ensures
        frag_offset(outline, sel, a, want) <= frag_offset(outline, sel, b, want),
    decreases b - a,
{
    if a < b {
        lemma_offset_monotone(outline, sel, a, b - 1, want);
    }
}

impl<C: Copy, O: Clone> Contour<C, O> {
    /// A copy of this contour: the same points and a clone of its operation.
    pub fn duplicate(&self) -> (r: Contour<C, O>)
        ensures
            is_copy_of(*self, r),
    {
        let mut points: Vec<Point<C>> = Vec::new();
        copy_range(&self.points, 0, self.points.len(), &mut points);
        proof {
            assert(self.points@.subrange(0, self.points@.len() as int) =~= self.points@);
            assert(points@ =~= self.points@);
        }
        Contour { points, operation: self.operation.clone() }
    }
}

/// Whether `(ci, pi)` occurs in `sel`.
pub fn contains_pair(sel: &Vec<(usize, usize)>, ci: usize, pi: usize) -> (r: bool)
    ensures
        r == sel@.contains((ci, pi)),
{
    let mut k: usize = 0;
    while k < sel.len()
        invariant
            0 <= k <= sel.len(),
            forall|q: int| 0 <= q < k ==> sel@[q] != (ci, pi),
        decreases sel.len() - k,
    {
        let (c, p) = sel[k];
        if c == ci && p == pi {
            assert(sel@[k as int] == (ci, pi));
            return true;
        }
        k = k + 1;
    }
    false
}

/// The flags of `keep_flags(sel, ci, len, want)`.
fn selection_flags(sel: &Vec<(usize, usize)>, ci: usize, len: usize, want: bool) -> (r: Vec<
    bool,
>)
    ensures
        r@ == keep_flags(sel@, ci as int, len as int, want),
{
    let mut r: Vec<bool> = Vec::new();
    let mut pi: usize = 0;
    while pi < len
        invariant
            0 <= pi <= len,
            r@.len() == pi,
            forall|q: int|
                0 <= q < pi ==> r@[q] == (sel@.contains((ci, q as usize)) == want),
        decreases len - pi,
    {
        let s = contains_pair(sel, ci, pi);
        r.push(s == want);
        pi = pi + 1;
    }
    assert(r@ =~= keep_flags(sel@, ci as int, len as int, want));
    r
}

/// Partitions every contour of `outline`, keeping the selected points
/// (`want` true) or the unselected ones (`want` false), and concatenates the
/// fragments in contour order.
pub fn partition_outline<C: Copy, O, P, M>(
    outline: &Vec<Contour<C, O>>,
    sel: &Vec<(usize, usize)>,
    want: bool,
    project: &P,
    combine: &M,
) -> (r: Vec<Contour<C, O>>) where
    P: Fn(&Contour<C, O>, usize, usize) -> Option<O>,
    M: Fn(Option<O>, Option<O>) -> Option<O>,

    requires
        forall|c: &Contour<C, O>, b: usize, e: usize| #[trigger] project.requires((c, b, e)),
        forall|x: Option<O>, y: Option<O>| #[trigger] combine.requires((x, y)),
    ensures
        is_outline_partition(outline@, sel@, want, *project, *combine, r@),
{
    let mut r: Vec<Contour<C, O>> = Vec::new();
    let mut ci: usize = 0;
    while ci < outline.len()
        invariant
            0 <= ci <= outline.len(),
            forall|c: &Contour<C, O>, b: usize, e: usize| #[trigger] project.requires((c, b, e)),
            forall|x: Option<O>, y: Option<O>| #[trigger] combine.requires((x, y)),
            r@.len() == frag_offset(outline@, sel@, ci as int, want),
            forall|cj: int, j: int|
                0 <= cj < ci && 0 <= j < frag_count(outline@, sel@, cj, want) ==> #[trigger] fragment_of(
                    &outline@[cj],
                    contour_flags(outline@, sel@, cj, want),
                    kept_pieces(outline@[cj].points@, contour_flags(outline@, sel@, cj, want))[j],
                    *project,
                    *combine,
                    r@[frag_offset(outline@, sel@, cj, want) + j],
                ),
        decreases outline.len() - ci,
    {
        let contour = &outline[ci];
        let flags = selection_flags(sel, ci, contour.points.len(), want);
        assert(flags@ == contour_flags(outline@, sel@, ci as int, want));
        let mut frags = partition(contour, &flags, project, combine);
        let ghost old_r = r@;
        let ghost fr = frags@;
        r.append(&mut frags);
        proof {
            assert forall|cj: int, j: int|
                0 <= cj < ci + 1 && 0 <= j < frag_count(outline@, sel@, cj, want) implies #[trigger] fragment_of(
                &outline@[cj],
                contour_flags(outline@, sel@, cj, want),
                kept_pieces(outline@[cj].points@, contour_flags(outline@, sel@, cj, want))[j],
                *project,
                *combine,
                r@[frag_offset(outline@, sel@, cj, want) + j],
            ) by {
                if cj < ci {
                    lemma_offset_monotone(outline@, sel@, cj + 1, ci as int, want);
                    lemma_offset_monotone(outline@, sel@, 0, cj, want);
                    assert(frag_offset(outline@, sel@, cj + 1, want) == frag_offset(
                        outline@,
                        sel@,
                        cj,
                        want,
                    ) + frag_count(outline@, sel@, cj, want));
                    assert(r@[frag_offset(outline@, sel@, cj, want) + j] == old_r[frag_offset(
                        outline@,
                        sel@,
                        cj,
                        want,
                    ) + j]);
                } else {
                    assert(r@[frag_offset(outline@, sel@, cj, want) + j] == fr[j]);
                }
            }
        }
        ci = ci + 1;
    }
    r
}

impl<C: Copy, O: Clone> Editor<C, O> {
    /// Whether point `pi` of contour `ci` is selected.
    pub fn is_point_selected(&self, ci: usize, pi: usize) -> (r: bool)
        ensures
            r == self.selected@.contains((ci, pi)),
    {
        contains_pair(&self.selected, ci, pi)
    }

    /// Puts the selected points into the clipboard: every contour is
    /// partitioned keeping its selected points, and the fragments of all
    /// contours, in order, become the clipboard's outline. The outline, the
    /// cursor and the selection are left as they are.
    pub fn copy_selection<P, M>(&mut self, project: &P, combine: &M) where
        P: Fn(&Contour<C, O>, usize, usize) -> Option<O>,
        M: Fn(Option<O>, Option<O>) -> Option<O>,

        requires
            forall|c: &Contour<C, O>, b: usize, e: usize| #[trigger] project.requires((c, b, e)),
            forall|x: Option<O>, y: Option<O>| #[trigger] combine.requires((x, y)),
        ensures
            copied(*old(self), *final(self), *project, *combine),
    {
        let outline = partition_outline(&self.outline, &self.selected, true, project, combine);
        self.clipboard = Some(Clipboard { name: String::new(), visible: true, outline });
    }

    /// Deletes the selected points: every contour is partitioned keeping its
    /// unselected points, and the fragments of all contours, in order, become
    /// the outline. The cursor and the selection are cleared.
    pub fn delete_selection<P, M>(&mut self, project: &P, combine: &M) where
        P: Fn(&Contour<C, O>, usize, usize) -> Option<O>,
        M: Fn(Option<O>, Option<O>) -> Option<O>,

        requires
            forall|c: &Contour<C, O>, b: usize, e: usize| #[trigger] project.requires((c, b, e)),
            forall|x: Option<O>, y: Option<O>| #[trigger] combine.requires((x, y)),
        ensures
            is_outline_partition(
                old(self).outline@,
                old(self).selected@,
                false,
                *project,
                *combine,
                final(self).outline@,
            ),
            final(self).contour_idx.is_none(),
            final(self).point_idx.is_none(),
            final(self).selected@.len() == 0,
            final(self).clipboard == old(self).clipboard,
    {
        let outline = partition_outline(&self.outline, &self.selected, false, project, combine);
        self.outline = outline;
        self.contour_idx = None;
        self.point_idx = None;
        self.selected.clear();
    }

    /// Appends a copy of each clipboard contour to the outline and selects
    /// exactly their points, after clearing the cursor. Without a clipboard
    /// nothing changes. The clipboard stays as it is.
    pub fn paste_selection(&mut self, _position: (C, C))
        ensures
            pasted(*old(self), *final(self)),
    {
        if self.clipboard.is_some() {
            self.contour_idx = None;
            self.point_idx = None;
            self.selected.clear();
            append_copies(
                &mut self.outline,
                &mut self.selected,
                &self.clipboard.as_ref().unwrap().outline,
            );
        }
    }
}

/// Appends a copy of each contour of `clip` to `outline`, and to `selected`
/// every point of the copies.
fn append_copies<C: Copy, O: Clone>(
    outline: &mut Vec<Contour<C, O>>,
    selected: &mut Vec<(usize, usize)>,
    clip: &Vec<Contour<C, O>>,
)
    requires
        old(selected)@.len() == 0,
    ensures
        ({
            let n = old(outline)@.len();
            &&& final(outline)@.len() == n + clip@.len()
            &&& final(outline)@.subrange(0, n as int) == old(outline)@
            &&& forall|k: int|
                0 <= k < clip@.len() ==> is_copy_of(#[trigger] clip@[k], final(outline)@[n + k])
            &&& forall|ci: usize, pi: usize|
                #[trigger] final(selected)@.contains((ci, pi)) <==> (n <= ci < n + clip@.len() && pi
                    < clip@[ci - n].points@.len())
        }),
{
    let ghost n = old(outline)@.len();
    let mut k: usize = 0;
    while k < clip.len()
        invariant
            0 <= k <= clip.len(),
            outline@.len() == n + k,
            outline@.subrange(0, n as int) == old(outline)@,
            forall|q: int| 0 <= q < k ==> is_copy_of(#[trigger] clip@[q], outline@[n + q]),
            forall|ci: usize, pi: usize|
                #[trigger] selected@.contains((ci, pi)) <==> (n <= ci < n + k && pi < clip@[ci
                    - n].points@.len()),
        decreases clip.len() - k,
    {
        let cur_idx = outline.len();
        let contour = &clip[k];
        let mut pi: usize = 0;
        while pi < contour.points.len()
            invariant
                0 <= pi <= contour.points.len(),
                cur_idx == n + k,
                contour == clip@[k as int],
                forall|ci: usize, pj: usize|
                    #[trigger] selected@.contains((ci, pj)) <==> ((n <= ci < n + k && pj < clip@[ci
                        - n].points@.len()) || (ci == cur_idx && pj < pi)),
            decreases contour.points.len() - pi,
        {
            let ghost before = selected@;
            selected.push((cur_idx, pi));
            proof {
                assert forall|ci: usize, pj: usize|
                    #[trigger] selected@.contains((ci, pj)) <==> ((n <= ci < n + k && pj < clip@[ci
                        - n].points@.len()) || (ci == cur_idx && pj < pi + 1)) by {
                    if selected@.contains((ci, pj)) {
                        let w = choose|w: int| 0 <= w < selected@.len() && selected@[w] == (ci, pj);
                        if w < before.len() {
                            assert(before.contains((ci, pj)));
                        }
                    }
                    if (n <= ci < n + k && pj < clip@[ci - n].points@.len()) || (ci == cur_idx && pj
                        < pi) {
                        assert(before.contains((ci, pj)));
                        let w = choose|w: int| 0 <= w < before.len() && before[w] == (ci, pj);
                        assert(selected@[w] == (ci, pj));
                    }
                    if ci == cur_idx && pj == pi {
                        assert(selected@[before.len() as int] == (ci, pj));
                    }
                }
            }
            pi = pi + 1;
        }
        let copy = contour.duplicate();
        let ghost before = outline@;
        outline.push(copy);
        proof {
            assert(outline@.subrange(0, n as int) =~= before.subrange(0, n as int));
            assert forall|q: int| 0 <= q < k + 1 implies is_copy_of(
                #[trigger] clip@[q],
                outline@[n + q],
            ) by {
                if q < k {
                    assert(outline@[n + q] == before[n + q]);
                }
            }
        }
        k = k + 1;
    }
}

proof fn lemma_offset_one_each<C, O>(outline: Seq<Contour<C, O>>, n: int)
    requires
        0 <= n <= outline.len(),
        forall|ci: int|
            0 <= ci < outline.len() ==> frag_count(outline, Seq::empty(), ci, false) == 1,
    ensures
        frag_offset(outline, Seq::empty(), n, false) == n,
    decreases n,
{
    if n > 0 {
        lemma_offset_one_each(outline, n - 1);
    }
}

/// Deleting with nothing selected changes no point: every contour of at
/// least one point comes back as one contour with exactly its points, point
/// types included.
pub proof fn lemma_delete_nothing_keeps_points<C, O, P, M>(
    outline: Seq<Contour<C, O>>,
    project: P,
    combine: M,
    r: Seq<Contour<C, O>>,
) where
    P: Fn(&Contour<C, O>, usize, usize) -> Option<O>,
    M: Fn(Option<O>, Option<O>) -> Option<O>,

    requires
        forall|ci: int| 0 <= ci < outline.len() ==> #[trigger] outline[ci].points@.len() > 0,
        is_outline_partition(outline, Seq::empty(), false, project, combine, r),
    ensures
        r.len() == outline.len(),
        forall|ci: int| 0 <= ci < r.len() ==> #[trigger] r[ci].points@ == outline[ci].points@,
{
    let sel = Seq::<(usize, usize)>::empty();
    assert forall|ci: int| 0 <= ci < outline.len() implies kept_pieces(
        outline[ci].points@,
        #[trigger] contour_flags(outline, sel, ci, false),
    ) == seq![Piece::Run(0, outline[ci].points@.len() as int)] && !drops_any(
        contour_flags(outline, sel, ci, false),
    ) by {
        let flags = contour_flags(outline, sel, ci, false);
        assert forall|k: int| 0 <= k < flags.len() implies #[trigger] flags[k] by {
            assert(!sel.contains((ci as usize, k as usize)));
        }
        assert(outline[ci].points@.len() > 0);
        lemma_keep_all(outline[ci].points@, flags);
    }
    lemma_offset_one_each(outline, outline.len() as int);
    assert forall|ci: int| 0 <= ci < r.len() implies #[trigger] r[ci].points@
        == outline[ci].points@ by {
        let flags = contour_flags(outline, sel, ci, false);
        assert(kept_pieces(outline[ci].points@, flags) == seq![
            Piece::Run(0, outline[ci].points@.len() as int),
        ]);
        lemma_offset_one_each(outline, ci);
        assert(fragment_of(
            &outline[ci],
            flags,
            kept_pieces(outline[ci].points@, flags)[0],
            project,
            combine,
            r[frag_offset(outline, sel, ci, false) + 0],
        ));
        assert(outline[ci].points@.subrange(0, outline[ci].points@.len() as int)
            =~= outline[ci].points@);
    }
}

proof fn lemma_offset_after_first<C, O>(
    outline: Seq<Contour<C, O>>,
    sel: Seq<(usize, usize)>,
    n: int,
)
    requires
        1 <= n <= outline.len(),
        frag_count(outline, sel, 0, true) == 1,
        forall|ci: int| 1 <= ci < outline.len() ==> #[trigger] frag_count(outline, sel, ci, true) == 0,
    ensures
        frag_offset(outline, sel, n, true) == 1,
    decreases n,
{
    assert(frag_offset(outline, sel, 0, true) == 0);
    if n > 1 {
        lemma_offset_after_first(outline, sel, n - 1);
    }
}

/// Copying a selection of the single point `(0, 1)` and pasting right away
/// appends one contour whose only point is that point (its type may have
/// become a `Move`), and leaves exactly that new point selected.
pub proof fn lemma_copy_paste_single_point<C, O: Clone, P, M>(
    e0: Editor<C, O>,
    e1: Editor<C, O>,
    e2: Editor<C, O>,
    project: P,
    combine: M,
) where
    P: Fn(&Contour<C, O>, usize, usize) -> Option<O>,
    M: Fn(Option<O>, Option<O>) -> Option<O>,

    requires
        e0.outline@.len() > 0,
        e0.outline@[0].points@.len() > 1,
        e0.selected@ == seq![(0usize, 1usize)],
        copied(e0, e1, project, combine),
        pasted(e1, e2),
    ensures
        e2.outline@.len() == e0.outline@.len() + 1,
        e2.outline@.subrange(0, e0.outline@.len() as int) == e0.outline@,
        e2.outline@[e0.outline@.len() as int].points@.len() == 1,
        with_type(e2.outline@[e0.outline@.len() as int].points@[0], PointType::Move) == with_type(
            e0.outline@[0].points@[1],
            PointType::Move,
        ),
        forall|ci: usize, pi: usize|
            #[trigger] e2.selected@.contains((ci, pi)) <==> (ci == e0.outline@.len() && pi == 0),
{
    let o = e0.outline@;
    let sel = e0.selected@;
    let n = o.len();
    assert forall|ci: int, k: int|
        0 <= ci < n && 0 <= k < o[ci].points@.len() implies #[trigger] contour_flags(
        o,
        sel,
        ci,
        true,
    )[k] == (k == (if ci == 0 {
        1
    } else {
        -1
    })) by {
        assert(e0.outline.len() == n);
        assert(o[ci].points.len() == o[ci].points@.len());
        if sel.contains((ci as usize, k as usize)) {
            let w = choose|w: int| 0 <= w < sel.len() && sel[w] == (ci as usize, k as usize);
            assert(w == 0);
        }
        if ci == 0 && k == 1 {
            assert(sel[0] == (0usize, 1usize));
        }
    }
    assert forall|ci: int| 1 <= ci < n implies #[trigger] frag_count(o, sel, ci, true) == 0 by {
        let flags = contour_flags(o, sel, ci, true);
        assert forall|k: int| 0 <= k < flags.len() implies #[trigger] flags[k] == (k == -1) by {
            assert(contour_flags(o, sel, ci, true)[k] == (k == -1));
        }
        lemma_single_kept(o[ci].points@, flags, -1);
    }
    let flags0 = contour_flags(o, sel, 0, true);
    assert forall|k: int| 0 <= k < flags0.len() implies #[trigger] flags0[k] == (k == 1) by {
        assert(contour_flags(o, sel, 0, true)[k] == (k == 1));
    }
    lemma_single_kept(o[0].points@, flags0, 1);
    lemma_offset_after_first(o, sel, n as int);
    let clip = e1.clipboard.unwrap().outline@;
    assert(clip.len() == 1);
    assert(frag_offset(o, sel, 0, true) == 0);
    assert(fragment_of(
        &o[0],
        flags0,
        kept_pieces(o[0].points@, flags0)[0],
        project,
        combine,
        clip[frag_offset(o, sel, 0, true) + 0],
    ));
    assert(is_copy_of(clip[0], e2.outline@[n as int + 0]));
    assert forall|ci: usize, pi: usize|
        #[trigger] e2.selected@.contains((ci, pi)) <==> (ci == n && pi == 0) by {
        if e2.selected@.contains((ci, pi)) {
            assert(n <= ci < n + 1);
        }
    }
}

} // verus!
