//! Small facts about sequences that the kernel's loops rest on.

use vstd::prelude::*;

verus! {

/// The elements of `s` in order of first occurrence, each once.
pub open spec fn distinct<A>(s: Seq<A>) -> Seq<A>
    decreases s.len(),
{
    if s.len() == 0 {
        Seq::empty()
    } else {
        let rest = distinct(s.drop_last());
        if rest.contains(s.last()) {
            rest
        } else {
            rest.push(s.last())
        }
    }
}

/// `distinct` holds exactly the elements of its argument, none of them twice.
pub proof fn lemma_distinct<A>(s: Seq<A>)
    ensures
        distinct(s).no_duplicates(),
        distinct(s).len() <= s.len(),
        forall|x: A| distinct(s).contains(x) <==> s.contains(x),
    decreases s.len(),
{
    if s.len() > 0 {
        let head = s.drop_last();
        lemma_distinct(head);
        let rest = distinct(head);
        assert forall|x: A| distinct(s).contains(x) <==> s.contains(x) by {
            if s.contains(x) {
                let i = choose|i: int| 0 <= i < s.len() && s[i] == x;
                if i < s.len() - 1 {
                    assert(head[i] == x);
                    assert(head.contains(x));
                    assert(rest.contains(x));
                    let j = choose|j: int| 0 <= j < rest.len() && rest[j] == x;
                    assert(distinct(s)[j] == x);
                } else {
                    if !rest.contains(x) {
                        assert(distinct(s)[rest.len() as int] == x);
                    }
                }
            }
            if distinct(s).contains(x) {
                let j = choose|j: int| 0 <= j < distinct(s).len() && distinct(s)[j] == x;
                if j < rest.len() {
                    assert(rest[j] == x);
                    assert(rest.contains(x));
                    assert(head.contains(x));
                    let i = choose|i: int| 0 <= i < head.len() && head[i] == x;
                    assert(s[i] == x);
                } else {
                    assert(x == s.last());
                    assert(s[s.len() - 1] == x);
                }
            }
        }
    }
}

/// One step of `distinct` along a growing prefix.
pub proof fn lemma_distinct_step<A>(s: Seq<A>, i: int)
    requires
        0 <= i < s.len(),
    ensures
        distinct(s.take(i + 1)) == if distinct(s.take(i)).contains(s[i]) {
            distinct(s.take(i))
        } else {
            distinct(s.take(i)).push(s[i])
        },
{
    assert(s.take(i + 1).drop_last() =~= s.take(i));
    assert(s.take(i + 1).last() == s[i]);
}

/// One step of `filter` along a growing prefix.
pub proof fn lemma_filter_step<A>(s: Seq<A>, pred: spec_fn(A) -> bool, i: int)
    requires
        0 <= i < s.len(),
    ensures
        s.take(i + 1).filter(pred) == if pred(s[i]) {
            s.take(i).filter(pred).push(s[i])
        } else {
            s.take(i).filter(pred)
        },
{
    reveal(Seq::filter);
    assert(s.take(i + 1).drop_last() =~= s.take(i));
    assert(s.take(i + 1).last() == s[i]);
}

/// The elements of `v` that satisfy `pred`, in order, given the verdict of
/// `pred` on each of them.
pub(crate) fn keep_where<T: Copy>(v: &Vec<T>, mask: &Vec<bool>, Ghost(pred): Ghost<
    spec_fn(T) -> bool,
>) -> (r: Vec<T>)
    requires
        mask.len() == v.len(),
        forall|i: int| 0 <= i < v.len() ==> mask[i] == pred(#[trigger] v[i]),
    ensures
        r@ == v@.filter(pred),
        r.len() <= v.len(),
        forall|k: int| 0 <= k < r.len() ==> v@.contains(#[trigger] r[k]),
        v@.no_duplicates() ==> r@.no_duplicates(),
        forall|k: int| 0 <= k < v.len() && pred(#[trigger] v[k]) ==> r@.contains(v[k]),
{
    let mut r: Vec<T> = Vec::new();
    let mut i: usize = 0;
    proof {
        reveal(Seq::filter);
        assert(v@.take(0).filter(pred) =~= Seq::<T>::empty());
    }
    while i < v.len()
        invariant
            0 <= i <= v.len(),
            mask.len() == v.len(),
            forall|k: int| 0 <= k < v.len() ==> mask[k] == pred(#[trigger] v[k]),
            r@ == v@.take(i as int).filter(pred),
            r.len() <= i,
            forall|k: int| 0 <= k < r.len() ==> v@.contains(#[trigger] r[k]),
            forall|k: int|
                0 <= k < r.len() ==> exists|j: int| 0 <= j < i && v[j] == #[trigger] r[k],
            v@.no_duplicates() ==> r@.no_duplicates(),
        decreases v.len() - i,
    {
        proof {
            lemma_filter_step(v@, pred, i as int);
        }
        if mask[i] {
            let ghost before = r@;
            r.push(v[i]);
            proof {
                assert forall|k: int| 0 <= k < r.len() implies exists|j: int|
                    0 <= j < i + 1 && v[j] == #[trigger] r[k] by {
                    if k < before.len() {
                        let j = choose|j: int| 0 <= j < i && v[j] == before[k];
                        assert(v[j] == r[k]);
                    } else {
                        assert(v[i as int] == r[k]);
                    }
                }
                if v@.no_duplicates() {
                    assert forall|a: int, b: int|
                        0 <= a < r.len() && 0 <= b < r.len() && a != b implies r[a] != r[b] by {
                        if a < before.len() && b < before.len() {
                            assert(before[a] != before[b]);
                        } else if a < before.len() {
                            let j = choose|j: int| 0 <= j < i && v[j] == before[a];
                            assert(v[j] != v[i as int]);
                        } else {
                            let j = choose|j: int| 0 <= j < i && v[j] == before[b];
                            assert(v[j] != v[i as int]);
                        }
                    }
                }
            }
        }
        i += 1;
    }
    proof {
        assert(v@.take(v.len() as int) =~= v@);
        assert forall|k: int| 0 <= k < v.len() && pred(#[trigger] v[k]) implies r@.contains(
            v[k],
        ) by {
            v@.lemma_filter_contains(pred, k);
        }
    }
    r
}

/// A vector with the same elements.
pub(crate) fn copy_of<T: Copy>(v: &Vec<T>) -> (r: Vec<T>)
    ensures
        r@ == v@,
{
    let mut r: Vec<T> = Vec::new();
    let mut i: usize = 0;
    while i < v.len()
        invariant
            0 <= i <= v.len(),
            r@ == v@.take(i as int),
        decreases v.len() - i,
    {
        r.push(v[i]);
        proof {
            assert(v@.take(i + 1) =~= v@.take(i as int).push(v[i as int]));
        }
        i += 1;
    }
    proof {
        assert(v@.take(v.len() as int) =~= v@);
    }
    r
}

/// The least index from `i` on at which `pred` holds, or `n` if there is none.
pub open spec fn first_from(pred: spec_fn(int) -> bool, i: int, n: int) -> int
    decreases n - i,
{
    if i >= n {
        n
    } else if pred(i) {
        i
    } else {
        first_from(pred, i + 1, n)
    }
}

pub proof fn lemma_first_from(pred: spec_fn(int) -> bool, i: int, j: int, n: int)
    requires
        0 <= i <= j <= n,
        forall|k: int| i <= k < j ==> !#[trigger] pred(k),
        j == n || pred(j),
    ensures
        first_from(pred, i, n) == j,
    decreases j - i,
{
    if i < j {
        lemma_first_from(pred, i + 1, j, n);
    }
}

} // verus!
