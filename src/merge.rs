//! Joining the end of one open contour to the start of another.

use crate::editor::Editor;
use crate::model::{Contour, is_open};
use vstd::prelude::*;

verus! {

/// Where contour `ci` stands once contour `source` has been removed.
pub open spec fn shift_index(ci: int, source: int) -> int {
    if ci > source {
        ci - 1
    } else {
        ci
    }
}

/// Where the point reference `p` points once contour `source` has been
/// appended to contour `target` (of `tlen` points) and removed.
pub open spec fn remap_pair(p: (usize, usize), source: int, target: int, tlen: int) -> (
    usize,
    usize,
) {
    if p.0 == source {
        (shift_index(target, source) as usize, (tlen + p.1) as usize)
    } else {
        (shift_index(p.0 as int, source) as usize, p.1)
    }
}

/// Every selected pair, and the cursor, refers to a point of the outline.
pub open spec fn refs_valid<C, O>(e: Editor<C, O>) -> bool {
    &&& forall|k: int|
        0 <= k < e.selected@.len() ==> (#[trigger] e.selected@[k]).0 < e.outline@.len()
            && e.selected@[k].1 < e.outline@[e.selected@[k].0 as int].points@.len()
    &&& e.contour_idx.is_some() ==> e.contour_idx.unwrap() < e.outline@.len()
    &&& e.contour_idx.is_some() && e.point_idx.is_some() ==> e.point_idx.unwrap()
        < e.outline@[e.contour_idx.unwrap() as int].points@.len()
}

/// `r` is `o` after appending the points of contour `source` to contour
/// `target` and removing contour `source`; the target keeps its operation.
pub open spec fn is_merged<C, O>(
    o: Seq<Contour<C, O>>,
    source: int,
    target: int,
    r: Seq<Contour<C, O>>,
) -> bool {
    &&& r.len() == o.len() - 1
    &&& forall|i: int|
        0 <= i < r.len() && i != shift_index(target, source) ==> #[trigger] r[i] == o[if i
            < source {
            i
        } else {
            i + 1
        }]
    &&& r[shift_index(target, source)].points@ == o[target].points@ + o[source].points@
    &&& r[shift_index(target, source)].operation == o[target].operation
}

fn remap_exec(p: (usize, usize), source: usize, target: usize, tlen: usize) -> (r: (usize, usize))
    requires
        source != target,
        p.0 == source ==> tlen + p.1 <= usize::MAX,
    ensures
        r == remap_pair(p, source as int, target as int, tlen as int),
{
    let t = if target > source {
        target - 1
    } else {
        target
    };
    if p.0 == source {
        (t, tlen + p.1)
    } else if p.0 > source {
        (p.0 - 1, p.1)
    } else {
        p
    }
}

impl<C: Copy, O: Clone> Editor<C, O> {
    /// Appends the points of contour `source` to contour `target` and removes
    /// contour `source`. Selected pairs and the cursor that pointed into the
    /// source now point to the same points inside the target; references to
    /// later contours follow their contour down by one.
    pub fn merge_contours(&mut self, source: usize, target: usize)
        requires
            source != target,
            source < old(self).outline@.len(),
            target < old(self).outline@.len(),
            old(self).outline@[target as int].points@.len()
                + old(self).outline@[source as int].points@.len() <= usize::MAX,
            refs_valid(*old(self)),
        ensures
            is_merged(old(self).outline@, source as int, target as int, final(self).outline@),
            final(self).selected@ == old(self).selected@.map_values(
                |p: (usize, usize)|
                    remap_pair(
                        p,
                        source as int,
                        target as int,
                        old(self).outline@[target as int].points@.len() as int,
                    ),
            ),
            old(self).contour_idx.is_none() ==> final(self).contour_idx.is_none(),
            old(self).contour_idx.is_some() ==> final(self).contour_idx == Some(
                (if old(self).contour_idx.unwrap() == source {
                    shift_index(target as int, source as int)
                } else {
                    shift_index(old(self).contour_idx.unwrap() as int, source as int)
                }) as usize,
            ),
            old(self).contour_idx == Some(source) && old(self).point_idx.is_some()
                ==> final(self).point_idx == Some(
                (old(self).outline@[target as int].points@.len()
                    + old(self).point_idx.unwrap()) as usize,
            ),
            old(self).contour_idx != Some(source)
                ==> final(self).point_idx == old(self).point_idx,
            old(self).point_idx.is_none() ==> final(self).point_idx.is_none(),
            final(self).clipboard == old(self).clipboard,
    {
        let tlen = self.outline[target].points.len();
        let selected = remap_selection(&self.selected, &self.outline, source, target);
        self.selected = selected;
        if let Some(c) = self.contour_idx {
            if c == source {
                if let Some(p) = self.point_idx {
                    self.point_idx = Some(tlen + p);
                }
            }
            self.contour_idx = Some(remap_exec((c, 0), source, target, tlen).0);
        }
        merge_outline(&mut self.outline, source, target);
    }
}

/// The selection `sel` with each pair remapped for merging contour `source`
/// into contour `target`.
fn remap_selection<C, O>(
    sel: &Vec<(usize, usize)>,
    outline: &Vec<Contour<C, O>>,
    source: usize,
    target: usize,
) -> (r: Vec<(usize, usize)>)
    requires
        source != target,
        source < outline@.len(),
        target < outline@.len(),
        outline@[target as int].points@.len() + outline@[source as int].points@.len()
            <= usize::MAX,
        forall|q: int|
            0 <= q < sel@.len() ==> (#[trigger] sel@[q]).0 < outline@.len() && sel@[q].1
                < outline@[sel@[q].0 as int].points@.len(),
    ensures
        r@ == sel@.map_values(
            |p: (usize, usize)|
                remap_pair(
                    p,
                    source as int,
                    target as int,
                    outline@[target as int].points@.len() as int,
                ),
        ),
{
    let tlen = outline[target].points.len();
    let mut r: Vec<(usize, usize)> = Vec::new();
    let mut k: usize = 0;
    while k < sel.len()
        invariant
            0 <= k <= sel.len(),
            source != target,
            source < outline@.len(),
            tlen == outline@[target as int].points@.len(),
            tlen + outline@[source as int].points@.len() <= usize::MAX,
            forall|q: int|
                0 <= q < sel@.len() ==> (#[trigger] sel@[q]).0 < outline@.len() && sel@[q].1
                    < outline@[sel@[q].0 as int].points@.len(),
            r@.len() == k,
            forall|q: int|
                0 <= q < k ==> r@[q] == remap_pair(
                    #[trigger] sel@[q],
                    source as int,
                    target as int,
                    tlen as int,
                ),
        decreases sel.len() - k,
    {
        let p = sel[k];
        r.push(remap_exec(p, source, target, tlen));
        k = k + 1;
    }
    assert(r@ =~= sel@.map_values(
        |p: (usize, usize)| remap_pair(p, source as int, target as int, tlen as int),
    ));
    r
}

/// Appends the points of contour `source` to contour `target` and removes
/// contour `source`.
fn merge_outline<C, O>(outline: &mut Vec<Contour<C, O>>, source: usize, target: usize)
    requires
        source != target,
        source < old(outline)@.len(),
        target < old(outline)@.len(),
    ensures
        is_merged(old(outline)@, source as int, target as int, final(outline)@),
{
    let ghost o = outline@;
    let mut src = outline.remove(source);
    let t = if target > source {
        target - 1
    } else {
        target
    };
    let mut tgt = outline.remove(t);
    tgt.points.append(&mut src.points);
    outline.insert(t, tgt);
    assert forall|i: int|
        0 <= i < outline@.len() && i != shift_index(target as int, source as int) implies #[trigger] outline@[i]
            == o[if i < source {
            i
        } else {
            i + 1
        }] by {}
}

/// Merging an open contour `[P0..Pn]` (the target) with an open contour
/// `[Q0..Qm]` (the source) yields the one contour `[P0..Pn, Q0..Qm]`, and the
/// outline holds one contour fewer.
pub proof fn lemma_merge_appends<C, O>(
    o: Seq<Contour<C, O>>,
    source: int,
    target: int,
    r: Seq<Contour<C, O>>,
)
    requires
        0 <= source < o.len(),
        0 <= target < o.len(),
        source != target,
        is_open(o[target].points@),
        is_open(o[source].points@),
        is_merged(o, source, target, r),
    ensures
        r.len() == o.len() - 1,
        exists|i: int|
            0 <= i < r.len() && (#[trigger] r[i]).points@ == o[target].points@
                + o[source].points@,
{
    let i = shift_index(target, source);
    assert(r[i].points@ == o[target].points@ + o[source].points@);
}

} // verus!
