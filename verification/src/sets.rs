//! Ordered sets kept in a vector: every element occurs once, in the order
//! in which it first arrived. The model of such a vector is the sequence of
//! the views of its elements.

use vstd::prelude::*;

verus! {

/// An element of an ordered set: it can be compared and copied by its view.
pub trait Entry: View + Sized {
    /// Whether the two elements have the same view.
    fn same(&self, other: &Self) -> (r: bool)
        ensures
            r == (self@ == other@),
    ;

    /// A copy with the same view.
    fn copy(&self) -> (r: Self)
        ensures
            r@ == self@,
    ;
}

/// The views of the elements of `v`, in order.
pub open spec fn views<T: View>(v: Seq<T>) -> Seq<T::V> {
    v.map_values(|x: T| x@)
}

/// `s` with `x` added at the end unless `s` already holds it.
pub open spec fn insert<A>(s: Seq<A>, x: A) -> Seq<A> {
    if s.contains(x) {
        s
    } else {
        s.push(x)
    }
}

/// `a` with the elements of `b` added one after another.
pub open spec fn union<A>(a: Seq<A>, b: Seq<A>) -> Seq<A>
    decreases b.len(),
{
    if b.len() == 0 {
        a
    } else {
        insert(union(a, b.drop_last()), b.last())
    }
}

/// Inserting adds exactly `x` to the elements, and keeps a sequence free of
/// repetitions free of them.
pub proof fn lemma_insert<A>(s: Seq<A>, x: A)
    ensures
        insert(s, x).to_set() == s.to_set().insert(x),
        s.no_duplicates() ==> insert(s, x).no_duplicates(),
        forall|i: int| 0 <= i < s.len() ==> insert(s, x)[i] == s[i],
        s.len() <= insert(s, x).len(),
{
    let r = insert(s, x);
    assert forall|y: A| r.to_set().contains(y) == s.to_set().insert(x).contains(y) by {
        if s.contains(x) {
        } else {
            if r.contains(y) {
                let i = choose|i: int| 0 <= i < r.len() && r[i] == y;
                if i < s.len() {
                    assert(s[i] == y);
                }
            }
            if s.contains(y) {
                let i = choose|i: int| 0 <= i < s.len() && s[i] == y;
                assert(r[i] == y);
            }
            if y == x {
                assert(r[s.len() as int] == x);
            }
        }
    }
    assert(r.to_set() =~= s.to_set().insert(x));
}

/// The union holds exactly the elements of both, and keeps `a` free of
/// repetitions.
pub proof fn lemma_union<A>(a: Seq<A>, b: Seq<A>)
    ensures
        union(a, b).to_set() == a.to_set().union(b.to_set()),
        a.no_duplicates() ==> union(a, b).no_duplicates(),
        a.len() <= union(a, b).len(),
        forall|i: int| 0 <= i < a.len() ==> union(a, b)[i] == a[i],
    decreases b.len(),
{
    if b.len() == 0 {
        assert(b.to_set() =~= Set::empty());
        assert(a.to_set().union(b.to_set()) =~= a.to_set());
    } else {
        let rest = b.drop_last();
        lemma_union(a, rest);
        lemma_insert(union(a, rest), b.last());
        assert forall|y: A| b.to_set().contains(y) == rest.to_set().insert(b.last()).contains(
            y,
        ) by {
            if b.contains(y) {
                let i = choose|i: int| 0 <= i < b.len() && b[i] == y;
                if i < rest.len() {
                    assert(rest[i] == y);
                }
            }
            if rest.contains(y) {
                let i = choose|i: int| 0 <= i < rest.len() && rest[i] == y;
                assert(b[i] == y);
            }
            if y == b.last() {
                assert(b[b.len() - 1] == y);
            }
        }
        assert(b.to_set() =~= rest.to_set().insert(b.last()));
        assert(union(a, b).to_set() =~= a.to_set().union(b.to_set()));
    }
}

/// Adding what is already there changes nothing: an element that a set
/// holds can be added again, and a set can be merged with any of its parts,
/// or with itself, as often as one likes.
pub proof fn lemma_union_same<A>(a: Seq<A>, b: Seq<A>)
    requires
        forall|i: int| 0 <= i < b.len() ==> a.contains(#[trigger] b[i]),
    ensures
        union(a, b) == a,
        forall|x: A| a.contains(x) ==> insert(a, x) == a,
    decreases b.len(),
{
    if b.len() > 0 {
        let rest = b.drop_last();
        assert forall|i: int| 0 <= i < rest.len() implies a.contains(#[trigger] rest[i]) by {
            assert(rest[i] == b[i]);
        }
        lemma_union_same(a, rest);
        assert(a.contains(b[b.len() - 1]));
    }
}

/// Whether `v` holds an element with the view of `x`.
pub fn contains<T: Entry>(v: &Vec<T>, x: &T) -> (r: bool)
    ensures
        r == views(v@).contains(x@),
{
    let mut i: usize = 0;
    while i < v.len()
        invariant
            i <= v.len(),
            forall|j: int| 0 <= j < i ==> views(v@)[j] != x@,
        decreases v.len() - i,
    {
        if v[i].same(x) {
            assert(views(v@)[i as int] == x@);
            return true;
        }
        i = i + 1;
    }
    false
}

/// Adds `x` to `v` unless `v` already holds an element with its view.
pub fn put<T: Entry>(v: &mut Vec<T>, x: T)
    ensures
        views(final(v)@) == insert(views(old(v)@), x@),
{
    if !contains(v, &x) {
        v.push(x);
        assert(views(v@) =~= views(old(v)@).push(x@));
    }
}

/// Adds a copy of each element of `other` to `v`, in order.
pub fn put_all<T: Entry>(v: &mut Vec<T>, other: &Vec<T>)
    ensures
        views(final(v)@) == union(views(old(v)@), views(other@)),
{
    let mut i: usize = 0;
    while i < other.len()
        invariant
            i <= other.len(),
            views(v@) == union(views(old(v)@), views(other@).take(i as int)),
        decreases other.len() - i,
    {
        put(v, other[i].copy());
        proof {
            let all = views(other@);
            assert(all.take(i + 1).drop_last() == all.take(i as int));
            assert(all.take(i + 1).last() == other@[i as int]@);
        }
        i = i + 1;
    }
    assert(views(other@).take(other.len() as int) == views(other@));
}

/// A copy of `v`, element by element.
pub fn copy_all<T: Entry>(v: &Vec<T>) -> (r: Vec<T>)
    ensures
        views(r@) == views(v@),
{
    let mut out: Vec<T> = Vec::new();
    let mut i: usize = 0;
    while i < v.len()
        invariant
            i <= v.len(),
            out.len() == i,
            forall|j: int| 0 <= j < i ==> out@[j]@ == v@[j]@,
        decreases v.len() - i,
    {
        out.push(v[i].copy());
        i = i + 1;
    }
    assert(views(out@) =~= views(v@));
    out
}

/// Added to nothing, a sequence free of repetitions is itself.
pub proof fn lemma_union_onto_nothing<A>(s: Seq<A>)
    requires
        s.no_duplicates(),
    ensures
        union(Seq::<A>::empty(), s) == s,
    decreases s.len(),
{
    if s.len() > 0 {
        let rest = s.drop_last();
        lemma_union_onto_nothing(rest);
        if rest.contains(s.last()) {
            let i = choose|i: int| 0 <= i < rest.len() && rest[i] == s.last();
            assert(s[i] == s[s.len() - 1]);
        }
        assert(rest.push(s.last()) =~= s);
    }
}

} // verus!
