//! The first element of a list that a condition holds of.
use vstd::prelude::*;

verus! {

/// The first element that the condition holds of.
pub open spec fn find_first<T>(list: Seq<T>, holds: spec_fn(T) -> bool) -> Option<T>
    decreases list.len(),
{
    if list.len() == 0 {
        None
    } else if holds(list[0]) {
        Some(list[0])
    } else {
        find_first(list.drop_first(), holds)
    }
}

/// Nothing before `i` satisfies the condition, so the search goes on from there.
pub proof fn lemma_find_from<T>(list: Seq<T>, holds: spec_fn(T) -> bool, i: int)
    requires
        0 <= i <= list.len(),
        forall|j: int| 0 <= j < i ==> !holds(#[trigger] list[j]),
    ensures
        find_first(list, holds) == find_first(list.skip(i), holds),
        i < list.len() && holds(list[i]) ==> find_first(list, holds) == Some(list[i]),
        i == list.len() ==> find_first(list, holds) is None,
    decreases i,
{
    if i == 0 {
        assert(list.skip(0) =~= list);
    } else {
        lemma_find_from(list, holds, i - 1);
        assert(!holds(list[i - 1]));
        assert(list.skip(i - 1).drop_first() =~= list.skip(i));
    }
    if i < list.len() {
        assert(list.skip(i)[0] == list[i]);
    }
}

/// What is found is in the list and satisfies the condition, and nothing is found only where
/// nothing in the list satisfies it.
pub proof fn law_find_first<T>(list: Seq<T>, holds: spec_fn(T) -> bool)
    ensures
        match find_first(list, holds) {
            Some(x) => list.contains(x) && holds(x),
            None => forall|i: int| 0 <= i < list.len() ==> !holds(#[trigger] list[i]),
        },
    decreases list.len(),
{
    if list.len() > 0 && !holds(list[0]) {
        let rest = list.drop_first();
        law_find_first(rest, holds);
        match find_first(list, holds) {
            Some(x) => {
                let i = choose|i: int| 0 <= i < rest.len() && rest[i] == x;
                assert(list[i + 1] == x);
            },
            None => {
                assert forall|i: int| 0 <= i < list.len() implies !holds(#[trigger] list[i]) by {
                    if i > 0 {
                        assert(rest[i - 1] == list[i]);
                    }
                }
            },
        }
    }
}

/// What is found stands at a position before which nothing satisfies the condition.
pub proof fn lemma_first_position<T>(list: Seq<T>, holds: spec_fn(T) -> bool)
    ensures
        find_first(list, holds) is Some ==> exists|i: int|
            0 <= i < list.len() && list[i] == find_first(list, holds)->0 && forall|j: int|
                0 <= j < i ==> !holds(#[trigger] list[j]),
    decreases list.len(),
{
    if list.len() > 0 && find_first(list, holds) is Some {
        if holds(list[0]) {
            assert(list[0] == find_first(list, holds)->0);
        } else {
            let rest = list.drop_first();
            lemma_first_position(rest, holds);
            let i = choose|i: int|
                0 <= i < rest.len() && rest[i] == find_first(rest, holds)->0 && forall|j: int|
                    0 <= j < i ==> !holds(#[trigger] rest[j]);
            assert(list[i + 1] == find_first(list, holds)->0);
            assert forall|j: int| 0 <= j < i + 1 implies !holds(#[trigger] list[j]) by {
                if j > 0 {
                    assert(rest[j - 1] == list[j]);
                }
            }
        }
    }
}

/// An element that satisfies the condition is found, whatever stands behind it, where nothing
/// before it does; where nothing does, nothing is found.
pub proof fn law_first_is_found<T>(
    before: Seq<T>,
    found: T,
    behind: Seq<T>,
    holds: spec_fn(T) -> bool,
)
    requires
        forall|i: int| 0 <= i < before.len() ==> !holds(#[trigger] before[i]),
    ensures
        holds(found) ==> find_first(before + seq![found] + behind, holds) == Some(found),
        !holds(found) ==> find_first(before + seq![found] + behind, holds) == find_first(
            behind,
            holds,
        ),
        find_first(before, holds) is None,
{
    let all = before + seq![found] + behind;
    let n = before.len() as int;
    assert forall|j: int| 0 <= j < n implies !holds(#[trigger] all[j]) by {
        assert(all[j] == before[j]);
    }
    lemma_find_from(all, holds, n);
    lemma_find_from(before, holds, n);
    if !holds(found) {
        assert forall|j: int| 0 <= j < n + 1 implies !holds(#[trigger] all[j]) by {}
        lemma_find_from(all, holds, n + 1);
        assert(all.skip(n + 1) =~= behind);
    }
}

} // verus!
