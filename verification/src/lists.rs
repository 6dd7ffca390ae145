//! Searching and replacing in a list.
use vstd::prelude::*;

verus! {

/// Where the first item stands that meets `p`; the length where none does.
pub open spec fn place<T>(s: Seq<T>, p: spec_fn(T) -> bool) -> int
    decreases s.len(),
{
    if s.len() == 0 || p(s[0]) {
        0
    } else {
        1 + place(s.drop_first(), p)
    }
}

/// The first item that meets `p`.
pub open spec fn find<T>(s: Seq<T>, p: spec_fn(T) -> bool) -> Option<T> {
    let at = place(s, p);
    if at < s.len() {
        Some(s[at])
    } else {
        None
    }
}

/// The list with `item` in the place of the first that meets `p`, or at the end
/// where none does.
pub open spec fn put<T>(s: Seq<T>, p: spec_fn(T) -> bool, item: T) -> Seq<T> {
    let at = place(s, p);
    if at < s.len() {
        s.update(at, item)
    } else {
        s.push(item)
    }
}

/// No two items are the same by `same`.
pub open spec fn one_each<T>(s: Seq<T>, same: spec_fn(T, T) -> bool) -> bool {
    forall|i: int, j: int| 0 <= i < j < s.len() ==> !same(#[trigger] s[i], #[trigger] s[j])
}

/// What [`place`] says of the items.
pub proof fn lemma_place<T>(s: Seq<T>, p: spec_fn(T) -> bool)
    ensures
        0 <= place(s, p) <= s.len(),
        forall|i: int| 0 <= i < place(s, p) ==> !p(#[trigger] s[i]),
        place(s, p) < s.len() ==> p(s[place(s, p)]),
    decreases s.len(),
{
    if s.len() > 0 && !p(s[0]) {
        let rest = s.drop_first();
        lemma_place(rest, p);
        assert forall|i: int| 0 <= i < place(s, p) implies !p(#[trigger] s[i]) by {
            if i > 0 {
                assert(rest[i - 1] == s[i]);
            }
        }
    }
}

/// The first item that meets `p` is found where nothing before it does.
pub proof fn lemma_place_is<T>(s: Seq<T>, p: spec_fn(T) -> bool, at: int)
    requires
        0 <= at <= s.len(),
        forall|i: int| 0 <= i < at ==> !p(#[trigger] s[i]),
        at < s.len() ==> p(s[at]),
    ensures
        place(s, p) == at,
{
    lemma_place(s, p);
    let found = place(s, p);
    if found < at {
        assert(p(s[found]));
    }
}

/// What was put into a list is found in it, and everything else is found as
/// before: `p` and `q` each stand for one key, and `item` is one that `p` stands
/// for.
pub proof fn law_find_after_put<T>(
    s: Seq<T>,
    p: spec_fn(T) -> bool,
    item: T,
    q: spec_fn(T) -> bool,
)
    requires
        p(item),
        forall|x: T| #[trigger] p(x) ==> q(x) == q(item),
        forall|x: T| #[trigger] q(x) && q(item) ==> p(x),
    ensures
        find(put(s, p, item), q) == (if q(item) {
            Some(item)
        } else {
            find(s, q)
        }),
{
    let at = place(s, p);
    let after = put(s, p, item);
    lemma_place(s, p);
    lemma_place(s, q);
    if q(item) {
        assert forall|i: int| 0 <= i < at implies !q(#[trigger] after[i]) by {
            assert(after[i] == s[i]);
        }
        lemma_place_is(after, q, at);
    } else {
        let to = place(s, q);
        if to < s.len() {
            if to == at {
                assert(p(s[at]));
            }
            assert forall|i: int| 0 <= i < to implies !q(#[trigger] after[i]) by {
                if i != at {
                    assert(after[i] == s[i]);
                }
            }
            lemma_place_is(after, q, to);
        } else {
            assert forall|i: int| 0 <= i < after.len() implies !q(#[trigger] after[i]) by {
                if i != at {
                    assert(after[i] == s[i]);
                }
            }
            lemma_place_is(after, q, after.len() as int);
        }
    }
}

/// Putting an item in the place of the one like it leaves no two the same.
pub proof fn lemma_one_each_after_put<T>(
    s: Seq<T>,
    p: spec_fn(T) -> bool,
    item: T,
    same: spec_fn(T, T) -> bool,
)
    requires
        one_each(s, same),
        forall|x: T| #[trigger] same(x, item) ==> p(x),
        forall|x: T| #[trigger] same(item, x) ==> p(x),
        forall|x: T, y: T| p(x) && p(y) ==> #[trigger] same(x, y),
    ensures
        one_each(put(s, p, item), same),
{
    lemma_place(s, p);
    let at = place(s, p);
    let after = put(s, p, item);
    assert forall|i: int, j: int| 0 <= i < j < after.len() implies !same(
        #[trigger] after[i],
        #[trigger] after[j],
    ) by {
        if i != at && j != at {
            assert(!same(s[i], s[j]));
        } else if j == at {
            assert(!p(s[i]));
        } else {
            assert(!same(s[at], s[j]));
            if same(item, s[j]) {
                assert(p(s[at]) && p(s[j]));
            }
        }
    }
}

/// Leaving items out leaves no two the same.
pub proof fn lemma_one_each_filtered<T>(
    s: Seq<T>,
    keep: spec_fn(T) -> bool,
    same: spec_fn(T, T) -> bool,
)
    requires
        one_each(s, same),
    ensures
        one_each(s.filter(keep), same),
    decreases s.len(),
{
    reveal(Seq::filter);
    if s.len() > 0 {
        let rest = s.drop_last();
        assert(one_each(rest, same)) by {
            assert forall|i: int, j: int| 0 <= i < j < rest.len() implies !same(
                #[trigger] rest[i],
                #[trigger] rest[j],
            ) by {
                assert(!same(s[i], s[j]));
            }
        }
        lemma_one_each_filtered(rest, keep, same);
        let kept = rest.filter(keep);
        if keep(s.last()) {
            assert forall|i: int, j: int| 0 <= i < j < kept.len() + 1 implies !same(
                #[trigger] kept.push(s.last())[i],
                #[trigger] kept.push(s.last())[j],
            ) by {
                if j < kept.len() {
                    assert(!same(kept[i], kept[j]));
                } else {
                    lemma_filtered_from(rest, keep, i);
                    let k = choose|k: int| 0 <= k < rest.len() && #[trigger] rest[k] == kept[i];
                    assert(!same(s[k], s[s.len() - 1]));
                }
            }
        }
    }
}

/// What is kept was there before.
pub proof fn lemma_filtered_from<T>(s: Seq<T>, keep: spec_fn(T) -> bool, i: int)
    requires
        0 <= i < s.filter(keep).len(),
    ensures
        exists|k: int| 0 <= k < s.len() && #[trigger] s[k] == s.filter(keep)[i],
    decreases s.len(),
{
    reveal(Seq::filter);
    let rest = s.drop_last();
    if i < rest.filter(keep).len() {
        lemma_filtered_from(rest, keep, i);
        let k = choose|k: int| 0 <= k < rest.len() && #[trigger] rest[k] == rest.filter(keep)[i];
        assert(s[k] == s.filter(keep)[i]);
    } else {
        assert(s[s.len() - 1] == s.filter(keep)[i]);
    }
}

} // verus!
