//! Selection of the lines of a text that mention any of a set of keywords.
use vstd::prelude::*;
use crate::text::{chars_of, contains, has_sub, lines_of, split_lines, string_views, to_strings, views};

verus! {

/// Whether line `l` holds any of the keywords `kws`.
pub open spec fn mentions_any(l: Seq<char>, kws: Seq<Seq<char>>) -> bool {
    exists|j: int| 0 <= j < kws.len() && has_sub(l, #[trigger] kws[j])
}

/// The test that a line holds any of `kws`.
pub open spec fn mentions(kws: Seq<Seq<char>>) -> spec_fn(Seq<char>) -> bool {
    |l: Seq<char>| mentions_any(l, kws)
}

/// The lines of `ls` that hold any of `kws`, in their order.
pub open spec fn selected(ls: Seq<Seq<char>>, kws: Seq<Seq<char>>) -> Seq<Seq<char>> {
    ls.filter(mentions(kws))
}

/// The keywords of a list of string slices.
pub open spec fn keyword_views(kws: Seq<&str>) -> Seq<Seq<char>> {
    kws.map_values(|k: &str| k@)
}

/// Whether `l` holds any of `kws`, trying them in order.
pub fn mentions_any_of(l: &Vec<char>, kws: &Vec<Vec<char>>) -> (r: bool)
    ensures
        r == mentions_any(l@, views(kws@)),
{
    let mut j: usize = 0;
    while j < kws.len()
        invariant
            j <= kws.len(),
            forall|m: int| 0 <= m < j ==> !has_sub(l@, #[trigger] views(kws@)[m]),
        decreases kws.len() - j,
    {
        if contains(l, &kws[j]) {
            assert(has_sub(l@, views(kws@)[j as int]));
            return true;
        }
        j = j + 1;
    }
    false
}

/// The lines of `ls` that hold any of `kws`, in their order and unchanged.
pub fn matching_lines(ls: &Vec<Vec<char>>, kws: &Vec<Vec<char>>) -> (r: Vec<Vec<char>>)
    ensures
        views(r@) == selected(views(ls@), views(kws@)),
{
    let ghost pred = mentions(views(kws@));
    let mut out: Vec<Vec<char>> = Vec::new();
    let mut i: usize = 0;
    proof {
        reveal(Seq::filter);
        assert(views(ls@).take(0) =~= seq![]);
    }
    while i < ls.len()
        invariant
            i <= ls.len(),
            pred == mentions(views(kws@)),
            views(out@) == views(ls@).take(i as int).filter(pred),
        decreases ls.len() - i,
    {
        proof {
            reveal(Seq::filter);
            assert(views(ls@).take(i + 1).drop_last() =~= views(ls@).take(i as int));
        }
        if mentions_any_of(&ls[i], kws) {
            out.push(ls[i].clone());
            assert(views(out@) =~= views(ls@).take(i + 1).filter(pred));
        } else {
            assert(views(out@) =~= views(ls@).take(i + 1).filter(pred));
        }
        i = i + 1;
    }
    assert(views(ls@).take(i as int) =~= views(ls@));
    out
}

/// The lines of `text` that contain any of `keywords`, verbatim and in order.
pub fn select_lines(text: &str, keywords: &[&str]) -> (r: Vec<String>)
    ensures
        string_views(r@) == selected(lines_of(text@), keyword_views(keywords@)),
{
    let mut kws: Vec<Vec<char>> = Vec::new();
    let mut j: usize = 0;
    while j < keywords.len()
        invariant
            j <= keywords.len(),
            views(kws@) == keyword_views(keywords@).take(j as int),
        decreases keywords.len() - j,
    {
        let ghost prev = views(kws@);
        kws.push(chars_of(keywords[j]));
        assert(views(kws@) =~= prev.push(keyword_views(keywords@)[j as int]));
        j = j + 1;
        assert(views(kws@) =~= keyword_views(keywords@).take(j as int));
    }
    assert(keyword_views(keywords@).take(j as int) =~= keyword_views(keywords@));
    let ls = split_lines(&chars_of(text));
    to_strings(&matching_lines(&ls, &kws))
}

/// The kept lines of a filter are the lines at increasing positions of the
/// original, and every line that passes the test is kept.
pub proof fn lemma_filter_positions(ls: Seq<Seq<char>>, p: spec_fn(Seq<char>) -> bool) -> (idx:
    Seq<int>)
    ensures
        idx.len() == ls.filter(p).len(),
        forall|k: int|
            0 <= k < idx.len() ==> 0 <= #[trigger] idx[k] < ls.len() && ls.filter(p)[k]
                == ls[idx[k]] && p(ls[idx[k]]),
        forall|k1: int, k2: int| 0 <= k1 < k2 < idx.len() ==> idx[k1] < idx[k2],
        forall|i: int|
            0 <= i < ls.len() && p(#[trigger] ls[i]) ==> exists|k: int|
                0 <= k < idx.len() && idx[k] == i,
    decreases ls.len(),
{
    reveal(Seq::filter);
    if ls.len() == 0 {
        seq![]
    } else {
        let d = ls.drop_last();
        let prev = lemma_filter_positions(d, p);
        assert forall|i: int| 0 <= i < d.len() && p(#[trigger] ls[i]) implies exists|k: int|
            0 <= k < prev.len() && prev[k] == i by {
            assert(d[i] == ls[i]);
        }
        if p(ls.last()) {
            let idx = prev.push(ls.len() - 1);
            assert forall|k: int| 0 <= k < idx.len() implies 0 <= #[trigger] idx[k] < ls.len()
                && ls.filter(p)[k] == ls[idx[k]] && p(ls[idx[k]]) by {
                if k < prev.len() {
                    assert(d[prev[k]] == ls[prev[k]]);
                }
            }
            assert forall|i: int| 0 <= i < ls.len() && p(#[trigger] ls[i]) implies exists|k: int|
                0 <= k < idx.len() && idx[k] == i by {
                if i == ls.len() - 1 {
                    assert(idx[idx.len() - 1] == i);
                } else {
                    let k = choose|k: int| 0 <= k < prev.len() && prev[k] == i;
                    assert(idx[k] == i);
                }
            }
            idx
        } else {
            assert forall|k: int| 0 <= k < prev.len() implies 0 <= #[trigger] prev[k] < ls.len()
                && ls.filter(p)[k] == ls[prev[k]] && p(ls[prev[k]]) by {
                assert(d[prev[k]] == ls[prev[k]]);
            }
            assert forall|i: int| 0 <= i < ls.len() && p(#[trigger] ls[i]) implies exists|k: int|
                0 <= k < prev.len() && prev[k] == i by {
                if i == ls.len() - 1 {
                    assert(false);
                }
            }
            prev
        }
    }
}

} // verus!
