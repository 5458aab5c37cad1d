//! Which chapters of a documentation book receive generated content.
//!
//! The book arrives as JSON; the caller reads each section into a [`BookItem`], asks
//! [`chapters_to_fill`] where the chapters to fill are, and writes the content there.
use vstd::prelude::*;

use crate::text::{chars_of, matches_at_exec, replace_all, replace_chars};

verus! {

/// A section of the book, as far as choosing chapters looks at it.
#[derive(Debug)]
pub enum BookItem {
    /// A chapter: its path where that is a string, and its sub-items where they are a list.
    Chapter { path: Option<String>, sub_items: Option<Vec<BookItem>> },
    /// Anything else (a separator, a part title).
    Other,
}

/// The item is a chapter whose path, with `\` read as `/`, is `target`.
pub open spec fn chapter_matches(item: BookItem, target: Seq<char>) -> bool {
    match item {
        BookItem::Chapter { path: Some(p), .. } => replace_all(p@, "\\"@, "/"@) == target,
        _ => false,
    }
}

/// Some item among `items` is a matching chapter.
pub open spec fn some_match(items: Seq<BookItem>, target: Seq<char>) -> bool {
    exists|i: int| 0 <= i < items.len() && chapter_matches(#[trigger] items[i], target)
}

/// Each of `paths` with `at` in front.
pub open spec fn prefixed(at: int, paths: Seq<Seq<int>>) -> Seq<Seq<int>> {
    paths.map_values(|p: Seq<int>| seq![at] + p)
}

/// The positions, as index paths, of the chapters to fill among `items`: they are
/// searched in order; a matching chapter is filled and ends the search of its list;
/// the sub-items of a chapter that does not match are searched first.
pub open spec fn fill_paths(items: Seq<BookItem>, target: Seq<char>) -> Seq<Seq<int>>
    decreases items, 0nat,
{
    if items.len() == 0 {
        seq![]
    } else if some_match(items.drop_last(), target) {
        fill_paths(items.drop_last(), target)
    } else {
        fill_paths(items.drop_last(), target) + item_paths(
            items.last(),
            items.len() - 1,
            target,
        )
    }
}

/// The positions to fill that the item at index `at` gives.
pub open spec fn item_paths(item: BookItem, at: int, target: Seq<char>) -> Seq<Seq<int>>
    decreases item, 1nat,
{
    if chapter_matches(item, target) {
        seq![seq![at]]
    } else {
        match item {
            BookItem::Chapter { sub_items: Some(sub), .. } => prefixed(at, fill_paths(sub@, target)),
            _ => seq![],
        }
    }
}

/// The index paths of a list of index paths.
pub open spec fn index_paths(ps: Seq<Vec<usize>>) -> Seq<Seq<int>> {
    ps.map_values(|p: Vec<usize>| p@.map_values(|k: usize| k as int))
}

/// After a matching chapter, the list adds no more positions.
proof fn lemma_stop_after_match(items: Seq<BookItem>, target: Seq<char>, n: int)
    requires
        0 <= n <= items.len(),
        some_match(items.take(n), target),
    ensures
        fill_paths(items, target) == fill_paths(items.take(n), target),
    decreases items.len() - n,
{
    if n < items.len() {
        assert(items.take(n + 1).drop_last() =~= items.take(n));
        let i = choose|i: int| 0 <= i < n && chapter_matches(#[trigger] items.take(n)[i], target);
        assert(items.take(n + 1)[i] == items.take(n)[i]);
        lemma_stop_after_match(items, target, n + 1);
    } else {
        assert(items.take(n) =~= items);
    }
}

/// Whether `item` is a chapter whose path, with `\` read as `/`, is `target`.
fn chapter_matches_exec(item: &BookItem, target: &Vec<char>) -> (r: bool)
    ensures
        r == chapter_matches(*item, target@),
{
    match item {
        BookItem::Chapter { path: Some(p), .. } => {
            let back = chars_of("\\");
            let slash = chars_of("/");
            proof {
                reveal_strlit("\\");
                reveal_strlit("/");
            }
            let norm = replace_chars(&chars_of(p.as_str()), &back, &slash);
            if norm.len() != target.len() {
                return false;
            }
            let r = matches_at_exec(&norm, target, 0);
            assert(norm@.subrange(0, target@.len() as int) =~= norm@);
            r
        },
        _ => false,
    }
}

/// `p` with `at` in front.
fn prefix_path(at: usize, p: &Vec<usize>) -> (r: Vec<usize>)
    ensures
        r@ == seq![at] + p@,
{
    let mut r: Vec<usize> = Vec::new();
    r.push(at);
    let mut m: usize = 0;
    while m < p.len()
        invariant
            0 <= m <= p.len(),
            r@ == seq![at] + p@.take(m as int),
        decreases p.len() - m,
    {
        r.push(p[m]);
        assert(p@.take(m + 1) =~= p@.take(m as int).push(p@[m as int]));
        assert(r@ =~= seq![at] + p@.take(m + 1));
        m = m + 1;
    }
    assert(p@.take(p.len() as int) =~= p@);
    r
}

/// The positions to fill among `items` (see [`fill_paths`]).
fn fill_paths_exec(items: &Vec<BookItem>, target: &Vec<char>) -> (r: Vec<Vec<usize>>)
    ensures
        index_paths(r@) == fill_paths(items@, target@),
    decreases items,
{
    let mut out: Vec<Vec<usize>> = Vec::new();
    let mut i: usize = 0;
    while i < items.len()
        invariant
            0 <= i <= items.len(),
            !some_match(items@.take(i as int), target@),
            index_paths(out@) == fill_paths(items@.take(i as int), target@),
        decreases items.len() - i,
    {
        assert(items@.take(i + 1).drop_last() =~= items@.take(i as int));
        assert(items@.take(i + 1).last() == items@[i as int]);
        let ghost before = index_paths(out@);
        assert(fill_paths(items@.take(i + 1), target@) == fill_paths(items@.take(i as int), target@)
            + item_paths(items@[i as int], i as int, target@));
        if chapter_matches_exec(&items[i], target) {
            let mut p: Vec<usize> = Vec::new();
            p.push(i);
            assert(p@.map_values(|x: usize| x as int) =~= seq![i as int]);
            out.push(p);
            proof {
                assert(index_paths(out@) =~= before + seq![seq![i as int]]);
                assert(items@.take(i + 1)[i as int] == items@[i as int]);
                assert(some_match(items@.take(i + 1), target@));
                lemma_stop_after_match(items@, target@, i + 1);
            }
            return out;
        }
        match &items[i] {
            BookItem::Chapter { sub_items: Some(sub), .. } => {
                proof {
                    assert(decreases_to!(items@ => items@[i as int]));
                }
                let inner = fill_paths_exec(sub, target);
                let mut k: usize = 0;
                while k < inner.len()
                    invariant
                        0 <= k <= inner.len(),
                        index_paths(out@) == before + prefixed(i as int, index_paths(inner@).take(k as int)),
                    decreases inner.len() - k,
                {
                    let p = prefix_path(i, &inner[k]);
                    assert(p@.map_values(|x: usize| x as int) =~= seq![i as int] + inner@[k as int]@.map_values(|x: usize| x as int));
                    let ghost old_out = index_paths(out@);
                    out.push(p);
                    assert(index_paths(out@) =~= old_out.push(p@.map_values(|x: usize| x as int)));
                    assert(prefixed(i as int, index_paths(inner@).take(k + 1)) =~= prefixed(i as int, index_paths(inner@).take(k as int)).push(seq![i as int] + index_paths(inner@)[k as int]));
                    assert(index_paths(out@) =~= before + prefixed(i as int, index_paths(inner@).take(k + 1)));
                    k = k + 1;
                }
                assert(index_paths(inner@).take(inner.len() as int) =~= index_paths(inner@));
                assert(item_paths(items@[i as int], i as int, target@) == prefixed(i as int, fill_paths(sub@, target@)));
            },
            _ => {
                assert(item_paths(items@[i as int], i as int, target@) == Seq::<Seq<int>>::empty());
                assert(before + seq![] =~= before);
            },
        }
        assert(!some_match(items@.take(i + 1), target@)) by {
            if some_match(items@.take(i + 1), target@) {
                let j = choose|j: int| 0 <= j < i + 1 && chapter_matches(#[trigger] items@.take(i + 1)[j], target@);
                if j < i {
                    assert(items@.take(i as int)[j] == items@.take(i + 1)[j]);
                }
            }
        }
        i = i + 1;
    }
    assert(items@.take(items.len() as int) =~= items@);
    out
}

/// The positions of the chapters of `sections` whose content becomes the generated
/// chapter `target_path` (see [`fill_paths`]): each an index into `sections` followed
/// by indices into the sub-items of the chapters on the way.
pub fn chapters_to_fill(sections: &Vec<BookItem>, target_path: &str) -> (r: Vec<Vec<usize>>)
    ensures
        index_paths(r@) == fill_paths(sections@, target_path@),
{
    let target = chars_of(target_path);
    fill_paths_exec(sections, &target)
}

} // verus!
