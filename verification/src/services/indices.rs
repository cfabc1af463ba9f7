//! Selections of indices: the positions below a bound at which a predicate
//! holds, in ascending order.

use vstd::prelude::*;

verus! {

/// The indices below `n` at which `p` holds, in ascending order.
pub open spec fn indices_where(n: int, p: spec_fn(int) -> bool) -> Seq<usize>
    decreases n,
{
    if n <= 0 {
        Seq::empty()
    } else if p(n - 1) {
        indices_where(n - 1, p).push((n - 1) as usize)
    } else {
        indices_where(n - 1, p)
    }
}

/// `indices_where(n, p)` holds exactly the indices below `n` at which `p`
/// holds, each once and in ascending order.
pub proof fn indices_where_is_exact(n: int, p: spec_fn(int) -> bool)
    requires
        n <= usize::MAX,
    ensures
        indices_where(n, p).len() <= (if n <= 0 { 0 } else { n }),
        forall|k: int|
            0 <= k < indices_where(n, p).len() ==> 0 <= (#[trigger] indices_where(n, p)[k]) < n && p(
                indices_where(n, p)[k] as int,
            ),
        forall|i: int| 0 <= i < n && p(i) ==> #[trigger] indices_where(n, p).contains(i as usize),
        forall|a: int, b: int|
            0 <= a < b < indices_where(n, p).len() ==> (#[trigger] indices_where(n, p)[a])
                < #[trigger] indices_where(n, p)[b],
    decreases n,
{
    if n > 0 {
        indices_where_is_exact(n - 1, p);
        let before = indices_where(n - 1, p);
        let all = indices_where(n, p);
        assert forall|i: int| 0 <= i < n && p(i) implies #[trigger] all.contains(i as usize) by {
            if i < n - 1 {
                assert(before.contains(i as usize));
                let k = choose|k: int| 0 <= k < before.len() && before[k] == i as usize;
                assert(all[k] == i as usize);
            } else {
                assert(all[all.len() - 1] == i as usize);
            }
        }
    }
}

/// Where `p` holds nowhere below `n`, nothing is selected.
pub proof fn indices_where_none(n: int, p: spec_fn(int) -> bool)
    requires
        forall|i: int| 0 <= i < n ==> !#[trigger] p(i),
    ensures
        indices_where(n, p) == Seq::<usize>::empty(),
    decreases n,
{
    if n > 0 {
        indices_where_none(n - 1, p);
    }
}

/// For each index below `n` at which `leads` holds, in ascending order, the
/// class that `class` gives it.
pub open spec fn classes_where(
    n: int,
    leads: spec_fn(int) -> bool,
    class: spec_fn(int) -> Seq<usize>,
) -> Seq<Seq<usize>>
    decreases n,
{
    if n <= 0 {
        Seq::empty()
    } else if leads(n - 1) {
        classes_where(n - 1, leads, class).push(class(n - 1))
    } else {
        classes_where(n - 1, leads, class)
    }
}

/// Every class in `classes_where(n, leads, class)` is the class of an index
/// below `n` at which `leads` holds, and every such index has its class in
/// it; the classes stand in the order of those indices.
pub proof fn classes_where_is_exact(
    n: int,
    leads: spec_fn(int) -> bool,
    class: spec_fn(int) -> Seq<usize>,
)
    requires
        n <= usize::MAX,
    ensures
        classes_where(n, leads, class).len() == indices_where(n, leads).len(),
        forall|k: int|
            0 <= k < classes_where(n, leads, class).len() ==> #[trigger] classes_where(
                n,
                leads,
                class,
            )[k] == class(indices_where(n, leads)[k] as int),
    decreases n,
{
    if n > 0 {
        classes_where_is_exact(n - 1, leads, class);
    }
}

/// The lists of a vector of lists, as sequences.
pub open spec fn views(lists: Seq<Vec<usize>>) -> Seq<Seq<usize>> {
    Seq::new(lists.len(), |k: int| lists[k]@)
}

} // verus!
