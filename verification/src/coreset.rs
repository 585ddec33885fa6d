//! The bookkeeping of a coreset: which point stands for which, how many
//! points each one stands for, and how the indices of a part of the data
//! become indices of the whole.

use vstd::prelude::*;

verus! {

/// How often `c` occurs among the first `n` entries of `assignment`.
pub open spec fn count_of(assignment: Seq<usize>, c: int, n: nat) -> nat
    decreases n,
{
    if n == 0 || n > assignment.len() {
        0
    } else {
        count_of(assignment, c, (n - 1) as nat) + if assignment[n - 1] == c {
            1nat
        } else {
            0nat
        }
    }
}

/// An entry is counted at most once.
pub proof fn lemma_count_bound(assignment: Seq<usize>, c: int, n: nat)
    requires
        n <= assignment.len(),
    ensures
        count_of(assignment, c, n) <= n,
    decreases n,
{
    if n > 0 {
        lemma_count_bound(assignment, c, (n - 1) as nat);
    }
}

/// Whether `m` is the greatest entry of `s`.
pub open spec fn is_max(s: Seq<usize>, m: usize) -> bool {
    s.contains(m) && forall|i: int| 0 <= i < s.len() ==> s[i] <= m
}

/// The weight of each of `n_coreset_points` points: the number of entries of
/// `assignment` that name it.
pub fn weight_coreset_points(n_coreset_points: usize, assignment: &Vec<usize>) -> (weights: Vec<
    usize,
>)
    requires
        forall|i: int| 0 <= i < assignment.len() ==> assignment[i] < n_coreset_points,
    ensures
        weights.len() == n_coreset_points,
        forall|c: int|
            0 <= c < n_coreset_points ==> #[trigger] weights[c] == count_of(
                assignment@,
                c,
                assignment.len() as nat,
            ),
{
    let mut weights: Vec<usize> = Vec::new();
    let mut k: usize = 0;
    while k < n_coreset_points
        invariant
            k <= n_coreset_points,
            weights.len() == k,
            forall|c: int| 0 <= c < k ==> #[trigger] weights[c] == 0,
        decreases n_coreset_points - k,
    {
        weights.push(0);
        k = k + 1;
    }
    let mut i: usize = 0;
    while i < assignment.len()
        invariant
            i <= assignment.len(),
            weights.len() == n_coreset_points,
            forall|j: int| 0 <= j < assignment.len() ==> assignment[j] < n_coreset_points,
            forall|c: int|
                0 <= c < n_coreset_points ==> #[trigger] weights[c] == count_of(
                    assignment@,
                    c,
                    i as nat,
                ),
        decreases assignment.len() - i,
    {
        let a = assignment[i];
        proof {
            lemma_count_bound(assignment@, a as int, i as nat);
        }
        let w = weights[a];
        weights.set(a, w + 1);
        i = i + 1;
    }
    weights
}

/// The weight of each point, for as many points as the greatest entry of
/// `assignment` asks for.
pub fn weight_by_count(assignment: &Vec<usize>) -> (weights: Vec<usize>)
    requires
        assignment.len() > 0,
        forall|i: int| 0 <= i < assignment.len() ==> assignment[i] < usize::MAX,
    ensures
        weights.len() > 0,
        is_max(assignment@, (weights.len() - 1) as usize),
        forall|c: int|
            0 <= c < weights.len() ==> #[trigger] weights[c] == count_of(
                assignment@,
                c,
                assignment.len() as nat,
            ),
{
    let mut max: usize = assignment[0];
    let mut i: usize = 1;
    while i < assignment.len()
        invariant
            1 <= i <= assignment.len(),
            assignment@.contains(max),
            forall|j: int| 0 <= j < i ==> assignment[j] <= max,
            forall|j: int| 0 <= j < assignment.len() ==> assignment[j] < usize::MAX,
        decreases assignment.len() - i,
    {
        if assignment[i] > max {
            max = assignment[i];
        }
        i = i + 1;
    }
    weight_coreset_points(max + 1, assignment)
}

/// The indices into the data of the points that `indices` names within the
/// coreset.
pub fn invert_index(coreset_indices: &Vec<usize>, indices: &Vec<usize>) -> (r: Vec<usize>)
    requires
        forall|i: int| 0 <= i < indices.len() ==> indices[i] < coreset_indices.len(),
    ensures
        r.len() == indices.len(),
        forall|i: int| 0 <= i < r.len() ==> r[i] == coreset_indices[indices[i] as int],
{
    let mut out: Vec<usize> = Vec::new();
    let mut i: usize = 0;
    while i < indices.len()
        invariant
            i <= indices.len(),
            out.len() == i,
            forall|j: int| 0 <= j < indices.len() ==> indices[j] < coreset_indices.len(),
            forall|j: int| 0 <= j < i ==> out[j] == coreset_indices[indices[j] as int],
        decreases indices.len() - i,
    {
        out.push(coreset_indices[indices[i]]);
        i = i + 1;
    }
    out
}

/// The places of the first `n` entries of `assignment` that name `c`.
pub open spec fn places_of(assignment: Seq<usize>, c: usize, n: nat) -> Seq<usize>
    decreases n,
{
    if n == 0 || n > assignment.len() {
        Seq::empty()
    } else if assignment[n - 1] == c {
        places_of(assignment, c, (n - 1) as nat).push((n - 1) as usize)
    } else {
        places_of(assignment, c, (n - 1) as nat)
    }
}

/// The points that are assigned to the point `c`.
pub fn assigned_to(assignment: &Vec<usize>, c: usize) -> (r: Vec<usize>)
    ensures
        r@ == places_of(assignment@, c, assignment.len() as nat),
{
    let mut out: Vec<usize> = Vec::new();
    let mut i: usize = 0;
    while i < assignment.len()
        invariant
            i <= assignment.len(),
            out@ == places_of(assignment@, c, i as nat),
        decreases assignment.len() - i,
    {
        if assignment[i] == c {
            out.push(i);
        }
        i = i + 1;
    }
    out
}

/// The indices of a part of the data as indices of the whole, the part
/// beginning at `offset`.
pub fn with_offset(indices: &Vec<usize>, offset: usize) -> (r: Vec<usize>)
    requires
        forall|i: int| 0 <= i < indices.len() ==> indices[i] + offset <= usize::MAX,
    ensures
        r.len() == indices.len(),
        forall|i: int| 0 <= i < r.len() ==> r[i] == indices[i] + offset,
{
    let mut out: Vec<usize> = Vec::new();
    let mut i: usize = 0;
    while i < indices.len()
        invariant
            i <= indices.len(),
            out.len() == i,
            forall|j: int| 0 <= j < indices.len() ==> indices[j] + offset <= usize::MAX,
            forall|j: int| 0 <= j < i ==> out[j] == indices[j] + offset,
        decreases indices.len() - i,
    {
        out.push(indices[i] + offset);
        i = i + 1;
    }
    out
}

/// Two lists, one after the other.
pub fn compose(a: Vec<usize>, b: Vec<usize>) -> (r: Vec<usize>)
    ensures
        r@ == a@ + b@,
{
    let mut out = a;
    let mut i: usize = 0;
    while i < b.len()
        invariant
            i <= b.len(),
            out@ == a@ + b@.take(i as int),
        decreases b.len() - i,
    {
        out.push(b[i]);
        assert(b@.take(i + 1) == b@.take(i as int).push(b@[i as int]));
        assert(out@ =~= a@ + b@.take(i + 1));
        i = i + 1;
    }
    assert(b@.take(b.len() as int) == b@);
    out
}

} // verus!
