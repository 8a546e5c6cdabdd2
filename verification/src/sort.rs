use vstd::prelude::*;

verus! {

/// A key with a strict weak order: `precedes` is asymmetric and, whenever
/// `a` precedes `c`, any `b` either follows `a` or precedes `c`.
pub trait SortKey: Sized {
    spec fn precedes(&self, other: &Self) -> bool;

    proof fn lemma_precedes_asym(a: Self, b: Self)
        requires
            a.precedes(&b),
        ensures
            !b.precedes(&a),
    ;

    proof fn lemma_precedes_split(a: Self, b: Self, c: Self)
        requires
            a.precedes(&c),
        ensures
            a.precedes(&b) || b.precedes(&c),
    ;

    fn precedes_exec(&self, other: &Self) -> (r: bool)
        ensures
            r == self.precedes(other),
    ;
}

impl SortKey for i128 {
    open spec fn precedes(&self, other: &Self) -> bool {
        *self < *other
    }

    proof fn lemma_precedes_asym(a: Self, b: Self) {
    }

    proof fn lemma_precedes_split(a: Self, b: Self, c: Self) {
    }

    fn precedes_exec(&self, other: &Self) -> (r: bool) {
        *self < *other
    }
}

/// An `i128` key precedes another exactly when it is the smaller integer.
pub proof fn lemma_i128_precedes_is_less(a: i128, b: i128)
    ensures
        a.precedes(&b) <==> a < b,
{
}

/// Entries `a < b` of `out` are in order: by key, and by their position in
/// the input (`perm`) where neither key precedes the other.
pub open spec fn in_order<K: SortKey, T>(out: Seq<(K, T)>, perm: Seq<int>, a: int, b: int) -> bool {
    out[a].0.precedes(&out[b].0) || (!out[b].0.precedes(&out[a].0) && perm[a] < perm[b])
}

/// `out` is `input` sorted stably by key: `out[i] == input[perm[i]]` for a
/// permutation `perm` of the input's positions, and any two entries of
/// `out` stand in key order, equal keys in input order.
pub open spec fn is_stable_sort<K: SortKey, T>(input: Seq<(K, T)>, out: Seq<(K, T)>, perm: Seq<int>) -> bool {
    &&& out.len() == input.len()
    &&& perm.len() == input.len()
    &&& forall|i: int| 0 <= i < out.len() ==> 0 <= #[trigger] perm[i] < input.len()
    &&& forall|i: int| 0 <= i < out.len() ==> #[trigger] out[i] == input[perm[i]]
    &&& forall|a: int, b: int| 0 <= a < b < out.len() ==> #[trigger] perm[a] != #[trigger] perm[b]
    &&& forall|a: int, b: int| 0 <= a < b < out.len() ==> #[trigger] in_order(out, perm, a, b)
}

/// Sorts `items` by key, keeping items whose keys are equivalent in their
/// original order (an insertion sort).
pub fn stable_sort_by_key<K: SortKey, T>(items: Vec<(K, T)>) -> (out: Vec<(K, T)>)
    ensures
        exists|perm: Seq<int>| is_stable_sort(items@, out@, perm),
{
    let ghost input = items@;
    let n: usize = items.len();
    let mut rest = items;
    let mut out: Vec<(K, T)> = Vec::new();
    let ghost mut perm: Seq<int> = Seq::empty();
    let mut i: usize = 0;
    while i < n
        invariant
            i <= n,
            n == input.len(),
            rest@ == input.subrange(i as int, n as int),
            out@.len() == i,
            perm.len() == i,
            forall|k: int| 0 <= k < i ==> 0 <= #[trigger] perm[k] < i,
            forall|k: int| 0 <= k < i ==> #[trigger] out@[k] == input[perm[k]],
            forall|a: int, b: int| 0 <= a < b < i ==> #[trigger] perm[a] != #[trigger] perm[b],
            forall|a: int, b: int| 0 <= a < b < i ==> #[trigger] in_order(out@, perm, a, b),
        decreases n - i,
    {
        let item = rest.remove(0);
        assert(item == input[i as int]);
        let mut p: usize = 0;
        while p < out.len() && !item.0.precedes_exec(&out[p].0)
            invariant
                p <= out@.len(),
                forall|j: int| 0 <= j < p ==> !(#[trigger] item.0.precedes(&out@[j].0)),
            decreases out@.len() - p,
        {
            p = p + 1;
        }
        let ghost old_out = out@;
        let ghost old_perm = perm;
        assert(p < old_out.len() ==> item.0.precedes(&old_out[p as int].0));
        out.insert(p, item);
        proof {
            perm = old_perm.insert(p as int, i as int);
            old_out.insert_ensures(p as int, item);
            old_perm.insert_ensures(p as int, i as int);
            let no = out@;
            assert forall|k: int| 0 <= k < i + 1 implies 0 <= #[trigger] perm[k] < i + 1 by {
                if k > p {
                    assert(perm[k] == old_perm[k - 1]);
                }
            }
            assert forall|k: int| 0 <= k < i + 1 implies #[trigger] no[k] == input[perm[k]] by {
                if k > p {
                    assert(perm[k] == old_perm[k - 1]);
                    assert(no[k] == old_out[k - 1]);
                }
            }
            assert forall|a: int, b: int| 0 <= a < b < i + 1 implies #[trigger] perm[a]
                != #[trigger] perm[b] by {
                if a > p {
                    assert(perm[a] == old_perm[a - 1]);
                }
                if b > p {
                    assert(perm[b] == old_perm[b - 1]);
                }
            }
            assert forall|a: int, b: int| 0 <= a < b < i + 1 implies #[trigger] in_order(
                no,
                perm,
                a,
                b,
            ) by {
                if b < p {
                    assert(in_order(old_out, old_perm, a, b));
                } else if b == p {
                    assert(!item.0.precedes(&old_out[a].0));
                } else if a < p {
                    assert(no[b] == old_out[b - 1]);
                    assert(perm[b] == old_perm[b - 1]);
                    assert(in_order(old_out, old_perm, a, b - 1));
                } else if a == p {
                    // the new item precedes everything from position p on
                    let ob = b - 1;
                    assert(no[b] == old_out[ob]);
                    assert(item.0.precedes(&old_out[p as int].0));
                    if ob > p {
                        assert(in_order(old_out, old_perm, p as int, ob));
                        K::lemma_precedes_split(item.0, old_out[ob].0, old_out[p as int].0);
                        if old_out[ob].0.precedes(&old_out[p as int].0) {
                            K::lemma_precedes_asym(old_out[ob].0, old_out[p as int].0);
                        }
                    }
                } else {
                    assert(no[a] == old_out[a - 1]);
                    assert(no[b] == old_out[b - 1]);
                    assert(perm[a] == old_perm[a - 1]);
                    assert(perm[b] == old_perm[b - 1]);
                    assert(in_order(old_out, old_perm, a - 1, b - 1));
                }
            }
        }
        i = i + 1;
        assert(rest@ =~= input.subrange(i as int, n as int));
    }
    assert(is_stable_sort(input, out@, perm));
    out
}

} // verus!
