use vstd::prelude::*;

verus! {

/// Filtering a sequence extended by one element.
pub proof fn lemma_filter_push<A>(s: Seq<A>, x: A, pred: spec_fn(A) -> bool)
    ensures
        s.push(x).filter(pred) == (if pred(x) {
            s.filter(pred).push(x)
        } else {
            s.filter(pred)
        }),
{
    reveal(Seq::filter);
    assert(s.push(x).drop_last() =~= s);
}

/// Mapping a sequence extended by one element.
pub proof fn lemma_map_push<A, B>(s: Seq<A>, x: A, f: spec_fn(A) -> B)
    ensures
        s.push(x).map_values(f) == s.map_values(f).push(f(x)),
{
    assert(s.push(x).map_values(f) =~= s.map_values(f).push(f(x)));
}

/// The prefix of length `i + 1` extends the prefix of length `i`.
pub proof fn lemma_take_push<A>(s: Seq<A>, i: int)
    requires
        0 <= i < s.len(),
    ensures
        s.take(i + 1) == s.take(i).push(s[i]),
{
    assert(s.take(i + 1) =~= s.take(i).push(s[i]));
}

} // verus!

verus! {

/// The least index below `n` that satisfies `pred`, or -1 if there is none.
pub open spec fn first_index(pred: spec_fn(int) -> bool, n: int) -> int {
    if exists|i: int| 0 <= i < n && #[trigger] pred(i) {
        choose|i: int| 0 <= i < n && #[trigger] pred(i) && forall|j: int| 0 <= j < i ==> !#[trigger] pred(j)
    } else {
        -1
    }
}

pub proof fn lemma_first_index(pred: spec_fn(int) -> bool, n: int, i: int)
    requires
        0 <= i < n,
        pred(i),
        forall|j: int| 0 <= j < i ==> !#[trigger] pred(j),
    ensures
        first_index(pred, n) == i,
{
    assert(exists|k: int| 0 <= k < n && #[trigger] pred(k));
    let k = first_index(pred, n);
    assert(0 <= k < n && pred(k) && forall|j: int| 0 <= j < k ==> !#[trigger] pred(j)) by {
        assert(0 <= i < n && pred(i) && forall|j: int| 0 <= j < i ==> !#[trigger] pred(j));
    }
    if k < i {
        assert(!pred(k));
    } else if k > i {
        assert(!pred(i));
    }
}

pub proof fn lemma_first_index_none(pred: spec_fn(int) -> bool, n: int)
    requires
        forall|j: int| 0 <= j < n ==> !#[trigger] pred(j),
    ensures
        first_index(pred, n) == -1,
{
}

} // verus!

verus! {

proof fn lemma_least_exists(pred: spec_fn(int) -> bool, n: int, i: int)
    requires
        0 <= i < n,
        pred(i),
    ensures
        exists|k: int| 0 <= k < n && #[trigger] pred(k) && forall|j: int| 0 <= j < k ==> !#[trigger] pred(j),
    decreases i,
{
    if exists|j: int| 0 <= j < i && #[trigger] pred(j) {
        let j = choose|j: int| 0 <= j < i && #[trigger] pred(j);
        lemma_least_exists(pred, n, j);
    } else {
        assert(0 <= i < n && pred(i) && forall|j: int| 0 <= j < i ==> !#[trigger] pred(j));
    }
}

/// The first index is the least index satisfying the predicate, and -1
/// exactly when none does.
pub proof fn lemma_first_index_spec(pred: spec_fn(int) -> bool, n: int)
    ensures
        first_index(pred, n) >= 0 ==> {
            &&& first_index(pred, n) < n
            &&& pred(first_index(pred, n))
            &&& forall|j: int| 0 <= j < first_index(pred, n) ==> !#[trigger] pred(j)
        },
        first_index(pred, n) < 0 ==> first_index(pred, n) == -1 && forall|j: int| 0 <= j < n ==> !#[trigger] pred(j),
{
    if exists|i: int| 0 <= i < n && #[trigger] pred(i) {
        let i = choose|i: int| 0 <= i < n && #[trigger] pred(i);
        lemma_least_exists(pred, n, i);
    }
}

} // verus!
