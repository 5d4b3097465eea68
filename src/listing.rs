use vstd::prelude::*;

use crate::path::views;
use crate::text::{chars_of, push_all, string_of};

verus! {

broadcast use vstd::seq_lib::to_multiset_insert, vstd::seq_lib::to_multiset_build;

/// One child of a listed directory.
pub struct DirEntry {
    pub name: String,
    pub is_dir: bool,
}

/// The prefix that marks a directory.
pub open spec fn dir_marker() -> Seq<char> {
    seq!['\u{1F4C1}', ' ']
}

/// The prefix that marks anything else.
pub open spec fn file_marker() -> Seq<char> {
    seq!['\u{1F4DD}', ' ']
}

/// The display text of an entry: its marker, then its name.
pub open spec fn entry_text(name: Seq<char>, is_dir: bool) -> Seq<char> {
    if is_dir {
        dir_marker() + name
    } else {
        file_marker() + name
    }
}

/// The display texts of `entries`, in their order.
pub open spec fn entry_texts(entries: Seq<DirEntry>) -> Seq<Seq<char>> {
    entries.map_values(|e: DirEntry| entry_text(e.name@, e.is_dir))
}

/// Lexicographic order on texts, characters compared by code point.
pub open spec fn lex_le(a: Seq<char>, b: Seq<char>) -> bool
    decreases a.len(),
{
    if a.len() == 0 {
        true
    } else if b.len() == 0 {
        false
    } else if a[0] != b[0] {
        a[0] < b[0]
    } else {
        lex_le(a.drop_first(), b.drop_first())
    }
}

/// `s` is in ascending lexicographic order.
pub open spec fn sorted(s: Seq<Seq<char>>) -> bool {
    forall|i: int, j: int| 0 <= i < j < s.len() ==> lex_le(s[i], s[j])
}

/// The character values of a list of strings.
pub open spec fn string_views(v: Seq<String>) -> Seq<Seq<char>> {
    v.map_values(|x: String| x@)
}

/// Any two texts are ordered one way or the other.
pub proof fn lemma_lex_total(a: Seq<char>, b: Seq<char>)
    ensures
        lex_le(a, b) || lex_le(b, a),
    decreases a.len(),
{
    if a.len() > 0 && b.len() > 0 && a[0] == b[0] {
        lemma_lex_total(a.drop_first(), b.drop_first());
    }
}

/// The order is transitive.
pub proof fn lemma_lex_trans(a: Seq<char>, b: Seq<char>, c: Seq<char>)
    requires
        lex_le(a, b),
        lex_le(b, c),
    ensures
        lex_le(a, c),
    decreases a.len(),
{
    if a.len() > 0 && b.len() > 0 && c.len() > 0 && a[0] == b[0] && b[0] == c[0] {
        lemma_lex_trans(a.drop_first(), b.drop_first(), c.drop_first());
    }
}

/// Compares two texts in lexicographic order.
fn chars_le(a: &Vec<char>, b: &Vec<char>) -> (r: bool)
    ensures
        r == lex_le(a@, b@),
{
    let mut i: usize = 0;
    assert(a@.skip(0) =~= a@ && b@.skip(0) =~= b@);
    while i < a.len() && i < b.len()
        invariant
            i <= a.len(),
            i <= b.len(),
            lex_le(a@, b@) == lex_le(a@.skip(i as int), b@.skip(i as int)),
        decreases a.len() - i,
    {
        if a[i] != b[i] {
            assert(a@.skip(i as int)[0] == a@[i as int]);
            assert(b@.skip(i as int)[0] == b@[i as int]);
            return a[i] < b[i];
        }
        assert(a@.skip(i as int).drop_first() =~= a@.skip(i as int + 1));
        assert(b@.skip(i as int).drop_first() =~= b@.skip(i as int + 1));
        i += 1;
    }
    i == a.len()
}

/// Inserts `x` into the sorted list `out`, before the first text above it.
fn insert_sorted(out: &mut Vec<Vec<char>>, x: Vec<char>)
    requires
        sorted(views(old(out)@)),
    ensures
        sorted(views(final(out)@)),
        views(final(out)@).to_multiset() == views(old(out)@).to_multiset().insert(x@),
{
    let ghost xv = x@;
    let mut p: usize = 0;
    while p < out.len()
        invariant
            p <= out.len(),
            forall|k: int| 0 <= k < p ==> lex_le(#[trigger] views(out@)[k], xv),
            x@ == xv,
        ensures
            p <= out.len(),
            forall|k: int| 0 <= k < p ==> lex_le(#[trigger] views(out@)[k], xv),
            p < out.len() ==> !lex_le(views(out@)[p as int], xv),
        decreases out.len() - p,
    {
        assert(views(out@)[p as int] == out@[p as int]@);
        if !chars_le(&out[p], &x) {
            break;
        }
        p += 1;
    }
    let ghost before = views(out@);
    proof {
        if p < out.len() {
            assert(before[p as int] == out@[p as int]@);
            lemma_lex_total(before[p as int], xv);
            assert forall|j: int| p <= j < before.len() implies lex_le(xv, before[j]) by {
                if j > p {
                    lemma_lex_trans(xv, before[p as int], before[j]);
                }
            }
        }
    }
    out.insert(p, x);
    proof {
        let after = views(out@);
        assert(after =~= before.insert(p as int, xv));
        assert forall|i: int, j: int| 0 <= i < j < after.len() implies lex_le(after[i], after[j]) by {
            if j == p {
                assert(lex_le(before[i], xv));
            } else if i == p {
                assert(lex_le(xv, before[j - 1]));
            } else if i < p && j > p {
                lemma_lex_trans(before[i], xv, before[j - 1]);
            } else if j < p {
                assert(lex_le(before[i], before[j]));
            } else {
                assert(lex_le(before[i - 1], before[j - 1]));
            }
        }
    }
}

/// The display text of one entry.
pub fn entry_display(e: &DirEntry) -> (r: Vec<char>)
    ensures
        r@ == entry_text(e.name@, e.is_dir),
{
    let mut r: Vec<char> = Vec::new();
    if e.is_dir {
        r.push('\u{1F4C1}');
    } else {
        r.push('\u{1F4DD}');
    }
    r.push(' ');
    push_all(&mut r, &chars_of(e.name.as_str()));
    if e.is_dir {
        assert(r@ =~= dir_marker() + e.name@);
    } else {
        assert(r@ =~= file_marker() + e.name@);
    }
    r
}

/// The listing of a directory: each entry rendered as marker and name, the
/// whole in ascending lexicographic order of those texts.
pub fn render_listing(entries: &Vec<DirEntry>) -> (r: Vec<String>)
    ensures
        string_views(r@).to_multiset() == entry_texts(entries@).to_multiset(),
        sorted(string_views(r@)),
{
    let ghost texts = entry_texts(entries@);
    let mut acc: Vec<Vec<char>> = Vec::new();
    let mut i: usize = 0;
    proof {
        assert(views(acc@) =~= Seq::<Seq<char>>::empty());
        assert(texts.take(0) =~= Seq::<Seq<char>>::empty());
    }
    while i < entries.len()
        invariant
            i <= entries.len(),
            texts == entry_texts(entries@),
            sorted(views(acc@)),
            views(acc@).to_multiset() == texts.take(i as int).to_multiset(),
        decreases entries.len() - i,
    {
        let t = entry_display(&entries[i]);
        proof {
            assert(texts.take(i as int + 1) =~= texts.take(i as int).push(t@));
        }
        insert_sorted(&mut acc, t);
        i += 1;
    }
    proof {
        assert(texts.take(entries@.len() as int) =~= texts);
    }
    let mut r: Vec<String> = Vec::new();
    let mut k: usize = 0;
    while k < acc.len()
        invariant
            k <= acc.len(),
            string_views(r@) == views(acc@).take(k as int),
        decreases acc.len() - k,
    {
        let s = string_of(&acc[k]);
        let ghost old_r = r@;
        r.push(s);
        k += 1;
        proof {
            assert(string_views(r@) =~= string_views(old_r).push(s@));
            assert(string_views(r@) =~= views(acc@).take(k as int));
        }
    }
    proof {
        assert(views(acc@).take(acc@.len() as int) =~= views(acc@));
    }
    r
}

} // verus!
