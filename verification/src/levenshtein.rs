//! The Levenshtein edit distance between two identifier sequences, used
//! as the genotype-similarity signal between genomes.

use vstd::prelude::*;

verus! {

/// The failure of a distance computation. The computation is total, so
/// this is never produced; it is kept as the typed error of the public
/// interface.
#[derive(Debug, Clone, Copy, PartialEq, Eq, Structural)]
pub enum LevenshteinError {
    /// The minimum of an empty candidate set was requested.
    MinNotFound,
}

/// The smaller of two integers.
pub open spec fn min2(a: int, b: int) -> int {
    if a <= b {
        a
    } else {
        b
    }
}

/// The Levenshtein edit distance: the least number of insertions,
/// deletions and substitutions that turns `a` into `b`.
pub open spec fn edit_distance(a: Seq<u32>, b: Seq<u32>) -> int
    decreases a.len() + b.len(),
{
    if a.len() == 0 {
        b.len() as int
    } else if b.len() == 0 {
        a.len() as int
    } else {
        let cost: int = if a.last() == b.last() {
            0
        } else {
            1
        };
        min2(
            edit_distance(a.drop_last(), b.drop_last()) + cost,
            min2(edit_distance(a, b.drop_last()) + 1, edit_distance(a.drop_last(), b) + 1),
        )
    }
}

/// The edit distance is never negative.
pub proof fn lemma_edit_distance_nonneg(a: Seq<u32>, b: Seq<u32>)
    ensures
        edit_distance(a, b) >= 0,
    decreases a.len() + b.len(),
{
    if a.len() > 0 && b.len() > 0 {
        lemma_edit_distance_nonneg(a.drop_last(), b.drop_last());
        lemma_edit_distance_nonneg(a, b.drop_last());
        lemma_edit_distance_nonneg(a.drop_last(), b);
    }
}

/// The edit distance never exceeds the summed lengths.
pub proof fn lemma_edit_distance_le_sum(a: Seq<u32>, b: Seq<u32>)
    ensures
        edit_distance(a, b) <= a.len() + b.len(),
    decreases a.len() + b.len(),
{
    if a.len() > 0 && b.len() > 0 {
        lemma_edit_distance_le_sum(a.drop_last(), b.drop_last());
        lemma_edit_distance_le_sum(a, b.drop_last());
        lemma_edit_distance_le_sum(a.drop_last(), b);
    }
}

/// A sequence is at distance zero from itself.
pub proof fn lemma_edit_distance_self(s: Seq<u32>)
    ensures
        edit_distance(s, s) == 0,
    decreases s.len(),
{
    if s.len() > 0 {
        lemma_edit_distance_self(s.drop_last());
        lemma_edit_distance_nonneg(s, s.drop_last());
        lemma_edit_distance_nonneg(s.drop_last(), s);
    }
}

/// The edit distance is symmetric in its arguments.
pub proof fn lemma_edit_distance_symmetric(a: Seq<u32>, b: Seq<u32>)
    ensures
        edit_distance(a, b) == edit_distance(b, a),
    decreases a.len() + b.len(),
{
    if a.len() > 0 && b.len() > 0 {
        lemma_edit_distance_symmetric(a.drop_last(), b.drop_last());
        lemma_edit_distance_symmetric(a, b.drop_last());
        lemma_edit_distance_symmetric(a.drop_last(), b);
    }
}

/// Computes the Levenshtein distance between the two sequences by
/// dynamic programming over their prefixes.
pub fn levenshtein(vec_1: Vec<u32>, vec_2: Vec<u32>) -> (r: Result<i32, LevenshteinError>)
    requires
        vec_1@.len() + vec_2@.len() < i32::MAX,
    ensures
        r matches Ok(d) && d == edit_distance(vec_1@, vec_2@),
{
    let l1 = vec_1.len();
    let l2 = vec_2.len();
    if l1 == 0 {
        return Ok(l2 as i32);
    }
    if l2 == 0 {
        return Ok(l1 as i32);
    }

    // `row` holds the distances of the prefixes of `vec_1` against the
    // prefix of `vec_2` of length `i`.
    let mut row: Vec<i32> = Vec::new();
    let mut j: usize = 0;
    while j <= l1
        invariant
            l1 == vec_1@.len(),
            l2 == vec_2@.len(),
            l1 + l2 < i32::MAX,
            j <= l1 + 1,
            row@.len() == j,
            forall|t: int|
                0 <= t < j ==> #[trigger] row@[t] == edit_distance(
                    vec_1@.take(t),
                    vec_2@.take(0),
                ),
        decreases l1 + 1 - j,
    {
        proof {
            assert(vec_2@.take(0) =~= Seq::<u32>::empty());
            assert(vec_1@.take(j as int).len() == j);
        }
        row.push(j as i32);
        j += 1;
    }

    let mut i: usize = 1;
    while i <= l2
        invariant
            l1 == vec_1@.len(),
            l2 == vec_2@.len(),
            l1 + l2 < i32::MAX,
            1 <= i <= l2 + 1,
            row@.len() == l1 + 1,
            forall|t: int|
                0 <= t <= l1 ==> #[trigger] row@[t] == edit_distance(
                    vec_1@.take(t),
                    vec_2@.take(i - 1),
                ),
        decreases l2 + 1 - i,
    {
        let mut next: Vec<i32> = Vec::new();
        proof {
            assert(vec_1@.take(0) =~= Seq::<u32>::empty());
            assert(vec_2@.take(i as int).len() == i);
        }
        next.push(i as i32);
        let mut j: usize = 1;
        while j <= l1
            invariant
                l1 == vec_1@.len(),
                l2 == vec_2@.len(),
                l1 + l2 < i32::MAX,
                1 <= i <= l2,
                1 <= j <= l1 + 1,
                row@.len() == l1 + 1,
                next@.len() == j,
                forall|t: int|
                    0 <= t <= l1 ==> #[trigger] row@[t] == edit_distance(
                        vec_1@.take(t),
                        vec_2@.take(i - 1),
                    ),
                forall|t: int|
                    0 <= t < j ==> #[trigger] next@[t] == edit_distance(
                        vec_1@.take(t),
                        vec_2@.take(i as int),
                    ),
            decreases l1 + 1 - j,
        {
            let cost: i32 = if vec_2[i - 1] == vec_1[j - 1] {
                0
            } else {
                1
            };
            let ghost pa = vec_1@.take(j as int);
            let ghost pb = vec_2@.take(i as int);
            proof {
                assert(pa.len() == j);
                assert(pb.len() == i);
                assert(pa.drop_last() =~= vec_1@.take(j - 1));
                assert(pb.drop_last() =~= vec_2@.take(i - 1));
                assert(pa.last() == vec_1@[j - 1]);
                assert(pb.last() == vec_2@[i - 1]);
                lemma_edit_distance_nonneg(pa.drop_last(), pb.drop_last());
                lemma_edit_distance_nonneg(pa, pb.drop_last());
                lemma_edit_distance_nonneg(pa.drop_last(), pb);
                lemma_edit_distance_le_sum(pa.drop_last(), pb.drop_last());
                lemma_edit_distance_le_sum(pa, pb.drop_last());
                lemma_edit_distance_le_sum(pa.drop_last(), pb);
            }
            let diag = row[j - 1] + cost;
            let left = next[j - 1] + 1;
            let up = row[j] + 1;
            let mut val = diag;
            if left < val {
                val = left;
            }
            if up < val {
                val = up;
            }
            next.push(val);
            j += 1;
        }
        row = next;
        i += 1;
    }
    proof {
        assert(vec_1@.take(l1 as int) =~= vec_1@);
        assert(vec_2@.take(l2 as int) =~= vec_2@);
    }
    Ok(row[l1])
}

} // verus!
