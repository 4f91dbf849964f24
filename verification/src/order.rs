//! A stable sort, and what it promises.

use vstd::prelude::*;

verus! {

broadcast use vstd::seq_lib::group_to_multiset_ensures;

/// Values ordered by a total preorder: any two compare, and the order is
/// transitive. Values that are ordered both ways are equivalent (they sort
/// alike) without having to be equal.
pub trait SortOrder: Sized {
    /// `a` may come before `b`.
    spec fn ordered(a: Self, b: Self) -> bool;

    proof fn lemma_ordered_reflexive(a: Self)
        ensures
            Self::ordered(a, a),
    ;

    proof fn lemma_ordered_transitive(a: Self, b: Self, c: Self)
        requires
            Self::ordered(a, b),
            Self::ordered(b, c),
        ensures
            Self::ordered(a, c),
    ;

    proof fn lemma_ordered_total(a: Self, b: Self)
        ensures
            Self::ordered(a, b) || Self::ordered(b, a),
    ;

    fn is_ordered_before(&self, other: &Self) -> (r: bool)
        ensures
            r == Self::ordered(*self, *other),
    ;
}

/// `a` and `b` sort alike.
pub open spec fn equivalent<T: SortOrder>(a: T, b: T) -> bool {
    T::ordered(a, b) && T::ordered(b, a)
}

/// The predicate "sorts alike with `k`", as a value.
pub open spec fn alike<T: SortOrder>(k: T) -> spec_fn(T) -> bool {
    |x: T| equivalent(x, k)
}

/// The elements of `s` that sort alike with `k`, in their order in `s`.
pub open spec fn class_of<T: SortOrder>(s: Seq<T>, k: T) -> Seq<T> {
    s.filter(alike(k))
}

/// Every element of `s` may come before every later one.
pub open spec fn is_sorted<T: SortOrder>(s: Seq<T>) -> bool {
    forall|i: int, j: int| 0 <= i < j < s.len() ==> T::ordered(s[i], s[j])
}

/// `output` is `input` sorted stably: sorted, the same elements, and the
/// elements that sort alike in the order they had in `input`.
pub open spec fn stably_sorted<T: SortOrder>(input: Seq<T>, output: Seq<T>) -> bool {
    &&& is_sorted(output)
    &&& output.to_multiset() == input.to_multiset()
    &&& forall|k: T| #[trigger] class_of(output, k) == class_of(input, k)
}

/// Where a new element goes in a sorted sequence: after every element that may
/// come before it.
fn insertion_point<T: SortOrder>(out: &Vec<T>, x: &T) -> (p: usize)
    ensures
        p <= out.len(),
        forall|j: int| 0 <= j < p ==> T::ordered(#[trigger] out@[j], *x),
        p < out.len() ==> !T::ordered(out@[p as int], *x),
{
    let mut p: usize = 0;
    while p < out.len() && out[p].is_ordered_before(x)
        invariant
            p <= out.len(),
            forall|j: int| 0 <= j < p ==> T::ordered(#[trigger] out@[j], *x),
        decreases out.len() - p,
    {
        p = p + 1;
    }
    p
}

/// Inserting `x` at its insertion point keeps a sequence sorted, and adds `x`
/// at the end of its class.
proof fn lemma_insert_sorted<T: SortOrder>(out: Seq<T>, x: T, p: int)
    requires
        is_sorted(out),
        0 <= p <= out.len(),
        forall|j: int| 0 <= j < p ==> T::ordered(#[trigger] out[j], x),
        p < out.len() ==> !T::ordered(out[p], x),
    ensures
        is_sorted(out.insert(p, x)),
        forall|k: T|
            #[trigger] class_of(out.insert(p, x), k) == if equivalent(x, k) {
                class_of(out, k).push(x)
            } else {
                class_of(out, k)
            },
        out.insert(p, x).to_multiset() == out.to_multiset().insert(x),
{
    let s = out.insert(p, x);
    if p < out.len() {
        T::lemma_ordered_total(out[p], x);
    }
    assert forall|i: int, j: int| 0 <= i < j < s.len() implies T::ordered(s[i], s[j]) by {
        if j < p {
        } else if j == p {
        } else if i < p {
            // s[i] = out[i], s[j] = out[j - 1]
            assert(T::ordered(out[i], out[j - 1]));
        } else if i == p {
            if j - 1 > p {
                T::lemma_ordered_transitive(x, out[p], out[j - 1]);
            }
        } else {
            assert(T::ordered(out[i - 1], out[j - 1]));
        }
    }
    let front = out.take(p);
    let back = out.skip(p);
    assert(out =~= front + back);
    assert(s =~= front + seq![x] + back);
    assert forall|k: T|
        #[trigger] class_of(s, k) == if equivalent(x, k) {
            class_of(out, k).push(x)
        } else {
            class_of(out, k)
        } by {
        let f = alike(k);
        Seq::filter_distributes_over_add(front + seq![x], back, f);
        Seq::filter_distributes_over_add(front, seq![x], f);
        Seq::filter_distributes_over_add(front, back, f);
        Seq::<T>::empty().lemma_filter_push(x, f);
        assert(seq![x] =~= Seq::<T>::empty().push(x));
        assert(Seq::<T>::empty().filter(f) =~= Seq::<T>::empty()) by {
            reveal(Seq::filter);
        }
        if equivalent(x, k) {
            // Nothing after the insertion point sorts alike with `x`.
            assert forall|j: int| 0 <= j < back.len() implies !f(back[j]) by {
                if f(back[j]) {
                    let y = back[j];
                    assert(y == out[p + j]);
                    if j > 0 {
                        assert(T::ordered(out[p], out[p + j]));
                    } else {
                        T::lemma_ordered_reflexive(out[p]);
                    }
                    T::lemma_ordered_transitive(out[p], y, k);
                    T::lemma_ordered_transitive(out[p], k, x);
                }
            }
            back.lemma_all_neg_filter_empty(f);
            assert(back.filter(f) =~= Seq::<T>::empty());
            assert(class_of(s, k) =~= class_of(out, k).push(x));
        } else {
            assert(class_of(s, k) =~= class_of(out, k));
        }
    }
    vstd::seq_lib::lemma_multiset_commutative(front + seq![x], back);
    vstd::seq_lib::lemma_multiset_commutative(front, seq![x]);
    vstd::seq_lib::lemma_multiset_commutative(front, back);
    assert(seq![x] =~= Seq::<T>::empty().push(x));
    assert(s.to_multiset() =~= out.to_multiset().insert(x)) by {
        broadcast use vstd::multiset::group_multiset_axioms;
    }
}

/// Sorts `v` stably: by `SortOrder::ordered`, keeping the order of the
/// elements that sort alike (what `slice::sort_by` does).
pub fn stable_sort<T: SortOrder>(v: Vec<T>) -> (r: Vec<T>)
    ensures
        stably_sorted(v@, r@),
{
    let ghost input = v@;
    let mut rest = v;
    let mut out: Vec<T> = Vec::new();
    let ghost mut done: int = 0;
    proof {
        assert(input.take(0) =~= Seq::<T>::empty());
        assert(input.skip(0) =~= input);
        assert forall|k: T| #[trigger] class_of(out@, k) == class_of(input.take(0), k) by {}
    }
    while rest.len() > 0
        invariant
            0 <= done <= input.len(),
            rest@ == input.skip(done),
            is_sorted(out@),
            out@.to_multiset() == input.take(done).to_multiset(),
            forall|k: T| #[trigger] class_of(out@, k) == class_of(input.take(done), k),
        decreases rest.len(),
    {
        let x = rest.remove(0);
        let p = insertion_point(&out, &x);
        let ghost before = out@;
        proof {
            lemma_insert_sorted(before, x, p as int);
            assert(input.take(done + 1) =~= input.take(done).push(x));
            assert(input.skip(done + 1) =~= input.skip(done).remove(0));
            assert forall|k: T| #[trigger]
                class_of(input.take(done + 1), k) == if equivalent(x, k) {
                    class_of(input.take(done), k).push(x)
                } else {
                    class_of(input.take(done), k)
                } by {
                input.take(done).lemma_filter_push(x, alike(k));
            }
        }
        out.insert(p, x);
        proof {
            done = done + 1;
            assert forall|k: T| #[trigger] class_of(out@, k) == class_of(input.take(done), k) by {
                assert(class_of(before.insert(p as int, x), k) == if equivalent(x, k) {
                    class_of(before, k).push(x)
                } else {
                    class_of(before, k)
                });
                assert(class_of(before, k) == class_of(input.take(done - 1), k));
            }
        }
    }
    proof {
        assert(input.take(done) =~= input);
    }
    out
}

/// The last element of a sequence closes its class.
proof fn lemma_class_of_push<T: SortOrder>(s: Seq<T>, x: T, k: T)
    ensures
        class_of(s.push(x), k) == if equivalent(x, k) {
            class_of(s, k).push(x)
        } else {
            class_of(s, k)
        },
{
    s.lemma_filter_push(x, alike(k));
}

/// Two sequences that are sorted, hold the same elements, and keep each class
/// in the same order are the same sequence.
proof fn lemma_sorted_classes_determine<T: SortOrder>(a: Seq<T>, b: Seq<T>)
    requires
        is_sorted(a),
        is_sorted(b),
        a.to_multiset() == b.to_multiset(),
        forall|k: T| #[trigger] class_of(a, k) == class_of(b, k),
    ensures
        a == b,
    decreases a.len(),
{
    assert(a.len() == a.to_multiset().len());
    assert(b.len() == b.to_multiset().len());
    if a.len() == 0 {
        assert(a =~= b);
        return;
    }
    let x = a.last();
    let y = b.last();
    let a0 = a.drop_last();
    let b0 = b.drop_last();
    assert(a =~= a0.push(x));
    assert(b =~= b0.push(y));
    // The last elements sort alike: each is at least every element of the other.
    assert(b.to_multiset().count(x) > 0);
    assert(b.contains(x));
    let j = choose|j: int| 0 <= j < b.len() && b[j] == x;
    if j < b.len() - 1 {
        assert(T::ordered(b[j], b[b.len() - 1]));
    } else {
        T::lemma_ordered_reflexive(y);
    }
    assert(a.to_multiset().count(y) > 0);
    assert(a.contains(y));
    let i = choose|i: int| 0 <= i < a.len() && a[i] == y;
    if i < a.len() - 1 {
        assert(T::ordered(a[i], a[a.len() - 1]));
    } else {
        T::lemma_ordered_reflexive(x);
    }
    assert(equivalent(x, y));
    // So both close the class of `x`, and are equal.
    T::lemma_ordered_reflexive(x);
    lemma_class_of_push(a0, x, x);
    lemma_class_of_push(b0, y, x);
    assert(class_of(a, x) == class_of(b, x));
    assert(class_of(a0, x).push(x) == class_of(b0, x).push(y));
    assert(x == class_of(a0, x).push(x).last());
    assert(x == y);
    // The rest keep the same classes.
    assert forall|k: T| #[trigger] class_of(a0, k) == class_of(b0, k) by {
        lemma_class_of_push(a0, x, k);
        lemma_class_of_push(b0, x, k);
        assert(class_of(a, k) == class_of(b, k));
        if equivalent(x, k) {
            assert(class_of(a0, k) =~= class_of(a0, k).push(x).drop_last());
            assert(class_of(b0, k) =~= class_of(b0, k).push(x).drop_last());
        }
    }
    assert(a0.to_multiset() == b0.to_multiset()) by {
        assert(a0.to_multiset().insert(x) == b0.to_multiset().insert(x));
        broadcast use vstd::multiset::group_multiset_axioms;
        assert(a0.to_multiset() =~= a0.to_multiset().insert(x).remove(x));
        assert(b0.to_multiset() =~= b0.to_multiset().insert(x).remove(x));
    }
    assert(is_sorted(a0));
    assert(is_sorted(b0));
    lemma_sorted_classes_determine(a0, b0);
}

/// A stable sort has only one possible outcome: two sequences that both sort
/// `input` stably are equal.
pub proof fn lemma_stable_sort_unique<T: SortOrder>(input: Seq<T>, a: Seq<T>, b: Seq<T>)
    requires
        stably_sorted(input, a),
        stably_sorted(input, b),
    ensures
        a == b,
{
    assert forall|k: T| #[trigger] class_of(a, k) == class_of(b, k) by {
        assert(class_of(a, k) == class_of(input, k));
        assert(class_of(b, k) == class_of(input, k));
    }
    lemma_sorted_classes_determine(a, b);
}

} // verus!
