use vstd::prelude::*;

use crate::path::{
    comps_prefix, dot, dot_dot, is_absolute, join_comps, joined_absolute, joined_comps, normal_comps,
    no_parent_from, normalize_from, norm_step, render, segments, target, target_parent, within,
};
use crate::workspace::resolution;

verus! {

/// No component is empty, `.` or `..`.
pub open spec fn clean(comps: Seq<Seq<char>>) -> bool {
    forall|i: int|
        0 <= i < comps.len() ==> {
            let c = #[trigger] comps[i];
            c.len() > 0 && c != dot() && c != dot_dot()
        }
}

/// Normalising an absolute path from clean components leaves clean components.
pub proof fn lemma_normalize_clean(start: Seq<Seq<char>>, segs: Seq<Seq<char>>)
    requires
        clean(start),
    ensures
        clean(normalize_from(true, start, segs)),
    decreases segs.len(),
{
    if segs.len() > 0 {
        lemma_normalize_clean(start, segs.drop_last());
        let prev = normalize_from(true, start, segs.drop_last());
        let c = segs.last();
        let next = norm_step(true, prev, c);
        assert forall|i: int| 0 <= i < next.len() implies {
            let d = #[trigger] next[i];
            d.len() > 0 && d != dot() && d != dot_dot()
        } by {
            if i < prev.len() {
                assert(next[i] == prev[i]);
            }
        }
    }
}

/// Under an absolute root, every path that an operation is allowed to touch
/// is the root followed by plain names: no `..`, `.` or empty piece can
/// lead it out of the root.
pub proof fn lemma_target_contained(root: Seq<char>, p: Seq<char>)
    requires
        is_absolute(root),
        resolution(root, p) is Some,
    ensures
        joined_absolute(root, p),
        clean(joined_comps(root, p)),
        normal_comps(root).len() <= joined_comps(root, p).len(),
        forall|i: int|
            0 <= i < normal_comps(root).len() ==> #[trigger] joined_comps(root, p)[i]
                == normal_comps(root)[i],
        resolution(root, p) == Some(render(true, joined_comps(root, p))),
{
    lemma_normalize_clean(Seq::empty(), segments(root));
    if is_absolute(p) {
        lemma_normalize_clean(Seq::empty(), segments(p));
    } else {
        lemma_normalize_clean(normal_comps(root), segments(p));
    }
}

/// Under an absolute root, writing a path creates the directory that holds
/// the very file that reading the same path opens: the target is that
/// directory followed by the target's last name.
pub proof fn lemma_write_read_same_file(root: Seq<char>, p: Seq<char>)
    requires
        is_absolute(root),
        within(root, p),
        target_parent(root, p) is Some,
    ensures
        resolution(root, p) == Some(target(root, p)),
        ({
            let d = target_parent(root, p)->Some_0;
            let name = joined_comps(root, p).last();
            target(root, p) == if d == seq!['/'] {
                d + name
            } else {
                d + seq!['/'] + name
            }
        }),
{
    lemma_target_contained(root, p);
    let comps = joined_comps(root, p);
    let d = target_parent(root, p)->Some_0;
    assert(d == seq!['/'] + join_comps(comps.drop_last()));
    if comps.len() == 1 {
        assert(comps.drop_last().len() == 0);
        assert(d =~= seq!['/']);
        assert(target(root, p) =~= d + comps.last());
    } else {
        assert(comps.drop_last().len() > 0);
        assert(comps.drop_last()[0] == comps[0]);
        lemma_join_nonempty(comps.drop_last());
        assert(d != seq!['/']) by {
            assert(d.len() > 1);
        }
        assert(target(root, p) =~= d + seq!['/'] + comps.last());
    }
}

/// Components of which the first is not empty join to a nonempty text.
proof fn lemma_join_nonempty(comps: Seq<Seq<char>>)
    requires
        comps.len() > 0,
        comps[0].len() > 0 || comps.len() > 1,
    ensures
        join_comps(comps).len() > 0,
    decreases comps.len(),
{
    if comps.len() > 1 {
        assert(join_comps(comps) == join_comps(comps.drop_last()) + seq!['/'] + comps.last());
    }
}

/// Normalising segments that hold no `..` keeps `start` as the leading part
/// and adds no `..` after it.
pub proof fn lemma_normalize_extends(abs: bool, start: Seq<Seq<char>>, segs: Seq<Seq<char>>)
    requires
        forall|i: int| 0 <= i < segs.len() ==> segs[i] != dot_dot(),
    ensures
        comps_prefix(start, normalize_from(abs, start, segs)),
        no_parent_from(normalize_from(abs, start, segs), start.len() as int),
    decreases segs.len(),
{
    if segs.len() > 0 {
        let rest = segs.drop_last();
        assert forall|i: int| 0 <= i < rest.len() implies rest[i] != dot_dot() by {
            assert(rest[i] == segs[i]);
        }
        lemma_normalize_extends(abs, start, rest);
        let prev = normalize_from(abs, start, rest);
        let next = norm_step(abs, prev, segs.last());
        assert forall|i: int| 0 <= i < next.len() && i < prev.len() implies next[i] == prev[i] by {}
    }
}

/// Under any root, a relative path with no `..` piece is never refused: it
/// resolves to the root followed by its own names.
pub proof fn lemma_plain_paths_stay_inside(root: Seq<char>, p: Seq<char>)
    requires
        !is_absolute(p),
        forall|i: int| 0 <= i < segments(p).len() ==> segments(p)[i] != dot_dot(),
    ensures
        within(root, p),
        resolution(root, p) == Some(target(root, p)),
{
    lemma_normalize_extends(is_absolute(root), normal_comps(root), segments(p));
}

/// Replacing the root moves every later resolution to the new root: a path
/// that stays inside the old root but leaves the new one is refused, and a
/// path is resolved exactly as the new root alone decides.
pub proof fn lemma_new_root_governs(old_root: Seq<char>, new_root: Seq<char>, p: Seq<char>)
    ensures
        within(old_root, p) && !within(new_root, p) ==> resolution(new_root, p) is None
            && resolution(old_root, p) is Some,
        within(new_root, p) ==> resolution(new_root, p) == Some(target(new_root, p)),
{
}

} // verus!
