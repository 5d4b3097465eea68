use vstd::prelude::*;

use crate::text::{chars_eq, copy_chars, push_all};

verus! {

/// The character values of a vector of character vectors.
pub open spec fn views(v: Seq<Vec<char>>) -> Seq<Seq<char>> {
    v.map_values(|x: Vec<char>| x@)
}

/// A path is absolute when it starts with a separator.
pub open spec fn is_absolute(s: Seq<char>) -> bool {
    s.len() > 0 && s[0] == '/'
}

/// Splitting read left to right: the segments closed so far, and the open one.
pub open spec fn split_state(s: Seq<char>) -> (Seq<Seq<char>>, Seq<char>)
    decreases s.len(),
{
    if s.len() == 0 {
        (Seq::empty(), Seq::empty())
    } else {
        let (done, cur) = split_state(s.drop_last());
        if s.last() == '/' {
            (done.push(cur), Seq::empty())
        } else {
            (done, cur.push(s.last()))
        }
    }
}

/// The pieces of `s` between separators, empty pieces included.
pub open spec fn segments(s: Seq<char>) -> Seq<Seq<char>> {
    split_state(s).0.push(split_state(s).1)
}

pub open spec fn dot() -> Seq<char> {
    seq!['.']
}

pub open spec fn dot_dot() -> Seq<char> {
    seq!['.', '.']
}

/// One step of lexical normalisation: empty and `.` pieces vanish, `..` removes
/// the last name (at the top of an absolute path it vanishes; above the start
/// of a relative one it is kept), any other piece is appended.
pub open spec fn norm_step(abs: bool, prev: Seq<Seq<char>>, c: Seq<char>) -> Seq<Seq<char>> {
    if c.len() == 0 || c == dot() {
        prev
    } else if c == dot_dot() {
        if prev.len() > 0 && prev.last() != dot_dot() {
            prev.drop_last()
        } else if abs {
            prev
        } else {
            prev.push(c)
        }
    } else {
        prev.push(c)
    }
}

/// Normalises `segs`, starting from the already normal components `start`.
pub open spec fn normalize_from(abs: bool, start: Seq<Seq<char>>, segs: Seq<Seq<char>>) -> Seq<
    Seq<char>,
>
    decreases segs.len(),
{
    if segs.len() == 0 {
        start
    } else {
        norm_step(abs, normalize_from(abs, start, segs.drop_last()), segs.last())
    }
}

/// The normal components of a path.
pub open spec fn normal_comps(s: Seq<char>) -> Seq<Seq<char>> {
    normalize_from(is_absolute(s), Seq::empty(), segments(s))
}

/// Whether `root` joined with `p` is absolute.
pub open spec fn joined_absolute(root: Seq<char>, p: Seq<char>) -> bool {
    is_absolute(p) || is_absolute(root)
}

/// The normal components of `root` joined with `p`: an absolute `p` replaces
/// the root, a relative one continues from it.
pub open spec fn joined_comps(root: Seq<char>, p: Seq<char>) -> Seq<Seq<char>> {
    if is_absolute(p) {
        normal_comps(p)
    } else {
        normalize_from(is_absolute(root), normal_comps(root), segments(p))
    }
}

/// `a` is a leading part of `b`, component by component.
pub open spec fn comps_prefix(a: Seq<Seq<char>>, b: Seq<Seq<char>>) -> bool {
    a.len() <= b.len() && forall|i: int| 0 <= i < a.len() ==> a[i] == b[i]
}

/// No component of `comps` from index `from` on is `..`.
pub open spec fn no_parent_from(comps: Seq<Seq<char>>, from: int) -> bool {
    forall|i: int| from <= i < comps.len() ==> comps[i] != dot_dot()
}

/// The containment rule: `root` joined with `p`, normalised, lies under the
/// normalised root and climbs no higher than it.
pub open spec fn within(root: Seq<char>, p: Seq<char>) -> bool {
    &&& joined_absolute(root, p) == is_absolute(root)
    &&& comps_prefix(normal_comps(root), joined_comps(root, p))
    &&& no_parent_from(joined_comps(root, p), normal_comps(root).len() as int)
}

/// Components separated by `/`.
pub open spec fn join_comps(comps: Seq<Seq<char>>) -> Seq<char>
    decreases comps.len(),
{
    if comps.len() == 0 {
        Seq::empty()
    } else if comps.len() == 1 {
        comps[0]
    } else {
        join_comps(comps.drop_last()) + seq!['/'] + comps.last()
    }
}

/// The text of a normal path: a leading `/` when absolute, `.` for the empty
/// relative path.
pub open spec fn render(abs: bool, comps: Seq<Seq<char>>) -> Seq<char> {
    if abs {
        seq!['/'] + join_comps(comps)
    } else if comps.len() == 0 {
        dot()
    } else {
        join_comps(comps)
    }
}

/// The path on which an operation on `p` under `root` acts.
pub open spec fn target(root: Seq<char>, p: Seq<char>) -> Seq<char> {
    render(joined_absolute(root, p), joined_comps(root, p))
}

/// The directory that holds the target, when the target has a name.
pub open spec fn target_parent(root: Seq<char>, p: Seq<char>) -> Option<Seq<char>> {
    let comps = joined_comps(root, p);
    if comps.len() == 0 {
        None
    } else {
        Some(render(joined_absolute(root, p), comps.drop_last()))
    }
}

proof fn lemma_views_push(v: Seq<Vec<char>>, x: Vec<char>)
    ensures
        views(v.push(x)) == views(v).push(x@),
{
    assert(views(v.push(x)) =~= views(v).push(x@));
}

/// Splits `s` at every separator.
pub fn split_segments(s: &Vec<char>) -> (r: Vec<Vec<char>>)
    ensures
        views(r@) == segments(s@),
{
    let mut done: Vec<Vec<char>> = Vec::new();
    let mut cur: Vec<char> = Vec::new();
    let mut i: usize = 0;
    proof {
        assert(s@.take(0) =~= Seq::<char>::empty());
        assert(split_state(s@.take(0)).1 =~= cur@);
        assert(views(done@) =~= Seq::<Seq<char>>::empty());
    }
    while i < s.len()
        invariant
            i <= s.len(),
            views(done@) == split_state(s@.take(i as int)).0,
            cur@ == split_state(s@.take(i as int)).1,
        decreases s.len() - i,
    {
        let c = s[i];
        proof {
            assert(s@.take(i as int + 1).drop_last() =~= s@.take(i as int));
        }
        if c == '/' {
            proof {
                lemma_views_push(done@, cur);
            }
            done.push(cur);
            cur = Vec::new();
        } else {
            cur.push(c);
        }
        i += 1;
    }
    proof {
        assert(s@.take(s@.len() as int) =~= s@);
        lemma_views_push(done@, cur);
    }
    done.push(cur);
    done
}

fn is_dot(c: &Vec<char>) -> (r: bool)
    ensures
        r == (c@ == dot()),
{
    if c.len() == 1 && c[0] == '.' {
        assert(c@ =~= dot());
        true
    } else {
        false
    }
}

fn is_dot_dot(c: &Vec<char>) -> (r: bool)
    ensures
        r == (c@ == dot_dot()),
{
    if c.len() == 2 && c[0] == '.' && c[1] == '.' {
        assert(c@ =~= dot_dot());
        true
    } else {
        false
    }
}

fn apply_step(abs: bool, out: &mut Vec<Vec<char>>, c: &Vec<char>)
    ensures
        views(final(out)@) == norm_step(abs, views(old(out)@), c@),
{
    proof {
        lemma_views_push(out@, *c);
    }
    if c.len() == 0 || is_dot(c) {
    } else if is_dot_dot(c) {
        if out.len() > 0 && !is_dot_dot(&out[out.len() - 1]) {
            let ghost before = out@;
            out.pop();
            proof {
                assert(views(out@) =~= views(before).drop_last());
            }
        } else if abs {
        } else {
            let d = copy_chars(c);
            proof {
                lemma_views_push(out@, d);
            }
            out.push(d);
        }
    } else {
        let d = copy_chars(c);
        proof {
            lemma_views_push(out@, d);
        }
        out.push(d);
    }
}

/// Normalises `segs` onto the normal components `start`.
pub fn normalize_onto(abs: bool, start: Vec<Vec<char>>, segs: &Vec<Vec<char>>) -> (r: Vec<
    Vec<char>,
>)
    ensures
        views(r@) == normalize_from(abs, views(start@), views(segs@)),
{
    let ghost sv = views(segs@);
    let mut out = start;
    let mut i: usize = 0;
    proof {
        assert(sv.take(0) =~= Seq::<Seq<char>>::empty());
    }
    while i < segs.len()
        invariant
            i <= segs.len(),
            sv == views(segs@),
            views(out@) == normalize_from(abs, views(start@), sv.take(i as int)),
        decreases segs.len() - i,
    {
        proof {
            assert(sv.take(i as int + 1).drop_last() =~= sv.take(i as int));
        }
        apply_step(abs, &mut out, &segs[i]);
        i += 1;
    }
    proof {
        assert(sv.take(sv.len() as int) =~= sv);
    }
    out
}

/// Whether `a` is a leading part of `b`, component by component.
pub fn is_comps_prefix(a: &Vec<Vec<char>>, b: &Vec<Vec<char>>) -> (r: bool)
    ensures
        r == comps_prefix(views(a@), views(b@)),
{
    if a.len() > b.len() {
        return false;
    }
    let mut i: usize = 0;
    while i < a.len()
        invariant
            i <= a.len() <= b.len(),
            forall|j: int| 0 <= j < i ==> views(a@)[j] == views(b@)[j],
        decreases a.len() - i,
    {
        let same = chars_eq(&a[i], &b[i]);
        assert(views(a@)[i as int] == a@[i as int]@ && views(b@)[i as int] == b@[i as int]@);
        if !same {
            return false;
        }
        i += 1;
    }
    true
}

/// Whether no component of `comps` from index `from` on is `..`.
pub fn has_no_parent_from(comps: &Vec<Vec<char>>, from: usize) -> (r: bool)
    ensures
        r == no_parent_from(views(comps@), from as int),
{
    let mut i: usize = from;
    while i < comps.len()
        invariant
            from <= i,
            forall|j: int| from <= j < i ==> views(comps@)[j] != dot_dot(),
        decreases comps.len() - i,
    {
        let up = is_dot_dot(&comps[i]);
        assert(views(comps@)[i as int] == comps@[i as int]@);
        if up {
            return false;
        }
        i += 1;
    }
    true
}

/// Copies a list of components.
pub fn copy_comps(v: &Vec<Vec<char>>) -> (r: Vec<Vec<char>>)
    ensures
        views(r@) == views(v@),
{
    let mut r: Vec<Vec<char>> = Vec::new();
    let mut i: usize = 0;
    while i < v.len()
        invariant
            i <= v.len(),
            views(r@) == views(v@).take(i as int),
        decreases v.len() - i,
    {
        let c = copy_chars(&v[i]);
        proof {
            lemma_views_push(r@, c);
        }
        r.push(c);
        i += 1;
        proof {
            assert(views(r@) =~= views(v@).take(i as int));
        }
    }
    proof {
        assert(views(v@).take(v@.len() as int) =~= views(v@));
    }
    r
}

/// The text of the normal path `comps`.
pub fn render_path(abs: bool, comps: &Vec<Vec<char>>) -> (r: Vec<char>)
    ensures
        r@ == render(abs, views(comps@)),
{
    let ghost cv = views(comps@);
    if !abs && comps.len() == 0 {
        let mut d: Vec<char> = Vec::new();
        d.push('.');
        assert(d@ =~= dot());
        return d;
    }
    let mut out: Vec<char> = Vec::new();
    if abs {
        out.push('/');
    }
    let ghost lead = out@;
    let mut i: usize = 0;
    proof {
        assert(lead + join_comps(cv.take(0)) =~= lead);
    }
    while i < comps.len()
        invariant
            i <= comps.len(),
            cv == views(comps@),
            out@ == lead + join_comps(cv.take(i as int)),
        decreases comps.len() - i,
    {
        proof {
            assert(cv.take(i as int + 1).drop_last() =~= cv.take(i as int));
        }
        if i > 0 {
            out.push('/');
        }
        push_all(&mut out, &comps[i]);
        proof {
            if i == 0 {
                assert(cv.take(1)[0] == cv[0]);
            }
            assert(out@ =~= lead + join_comps(cv.take(i as int + 1)));
        }
        i += 1;
    }
    proof {
        assert(cv.take(cv.len() as int) =~= cv);
        if abs {
            assert(lead =~= seq!['/']);
        } else {
            assert(lead =~= Seq::<char>::empty());
            assert(out@ =~= join_comps(cv));
        }
    }
    out
}

} // verus!
