//! The merge engine: a linear two-way merge of ascending sequences, and the
//! laws that make folding chunk responses independent of their arrival order.

use vstd::prelude::*;
use vstd::seq_lib::*;
use vstd::multiset::*;

verus! {

/// `s` is sorted ascending (duplicates allowed).
pub open spec fn is_ascending(s: Seq<i64>) -> bool {
    forall|i: int, j: int| 0 <= i < j < s.len() ==> s[i] <= s[j]
}

/// Every element of `s` is at least `x`.
pub open spec fn bounded_below(s: Seq<i64>, x: i64) -> bool {
    forall|i: int| 0 <= i < s.len() ==> x <= #[trigger] s[i]
}

/// The two-pointer merge as a function on sequences: the smaller head goes
/// first, a tie takes the head of `a`, and once one side is exhausted the
/// other follows unchanged.
pub open spec fn merge_spec(a: Seq<i64>, b: Seq<i64>) -> Seq<i64>
    decreases a.len() + b.len(),
{
    if a.len() == 0 {
        b
    } else if b.len() == 0 {
        a
    } else if a[0] <= b[0] {
        seq![a[0]] + merge_spec(a.drop_first(), b)
    } else {
        seq![b[0]] + merge_spec(a, b.drop_first())
    }
}

/// The result of folding the chunks into an empty accumulator one by one, in
/// the order in which they arrive.
pub open spec fn merge_all(chunks: Seq<Seq<i64>>) -> Seq<i64>
    decreases chunks.len(),
{
    if chunks.len() == 0 {
        Seq::<i64>::empty()
    } else {
        merge_spec(merge_all(chunks.drop_last()), chunks.last())
    }
}

/// All values held by the chunks, with multiplicity.
pub open spec fn combined(chunks: Seq<Seq<i64>>) -> Multiset<i64>
    decreases chunks.len(),
{
    if chunks.len() == 0 {
        Multiset::<i64>::empty()
    } else {
        combined(chunks.drop_last()).add(chunks.last().to_multiset())
    }
}

/// Every chunk is sorted ascending.
pub open spec fn all_ascending(chunks: Seq<Seq<i64>>) -> bool {
    forall|i: int| 0 <= i < chunks.len() ==> is_ascending(#[trigger] chunks[i])
}

/// Merging with an empty sequence on either side changes nothing.
pub proof fn lemma_merge_empty(s: Seq<i64>)
    ensures
        merge_spec(Seq::<i64>::empty(), s) == s,
        merge_spec(s, Seq::<i64>::empty()) == s,
{
}

/// A merge keeps every element of both sides, duplicates included, and adds
/// none.
pub proof fn lemma_merge_multiset(a: Seq<i64>, b: Seq<i64>)
    ensures
        merge_spec(a, b).len() == a.len() + b.len(),
        merge_spec(a, b).to_multiset() == a.to_multiset().add(b.to_multiset()),
    decreases a.len() + b.len(),
{
    broadcast use group_multiset_axioms, group_to_multiset_ensures;
    let m = merge_spec(a, b);
    if a.len() == 0 {
        assert(a.to_multiset() =~= Multiset::<i64>::empty());
        assert(m.to_multiset() =~= a.to_multiset().add(b.to_multiset()));
    } else if b.len() == 0 {
        assert(b.to_multiset() =~= Multiset::<i64>::empty());
        assert(m.to_multiset() =~= a.to_multiset().add(b.to_multiset()));
    } else if a[0] <= b[0] {
        let rest = merge_spec(a.drop_first(), b);
        lemma_merge_multiset(a.drop_first(), b);
        assert(m.drop_first() =~= rest);
        assert(a =~= seq![a[0]] + a.drop_first());
        lemma_head_multiset(m);
        lemma_head_multiset(a);
        assert(m.to_multiset() =~= a.to_multiset().add(b.to_multiset()));
    } else {
        let rest = merge_spec(a, b.drop_first());
        lemma_merge_multiset(a, b.drop_first());
        assert(m.drop_first() =~= rest);
        lemma_head_multiset(m);
        lemma_head_multiset(b);
        assert(m.to_multiset() =~= a.to_multiset().add(b.to_multiset()));
    }
}

/// A non-empty sequence holds its first element and what the rest holds.
proof fn lemma_head_multiset(s: Seq<i64>)
    requires
        s.len() > 0,
    ensures
        s.to_multiset() == s.drop_first().to_multiset().insert(s[0]),
{
    broadcast use group_multiset_axioms, group_to_multiset_ensures;
    assert(s.remove(0) =~= s.drop_first());
    to_multiset_remove(s, 0);
    assert(s.to_multiset().count(s[0]) > 0);
    assert(s.to_multiset() =~= s.drop_first().to_multiset().insert(s[0]));
}

/// A lower bound of both sides is a lower bound of their merge.
pub proof fn lemma_merge_bounded_below(a: Seq<i64>, b: Seq<i64>, x: i64)
    requires
        bounded_below(a, x),
        bounded_below(b, x),
    ensures
        bounded_below(merge_spec(a, b), x),
    decreases a.len() + b.len(),
{
    if a.len() == 0 || b.len() == 0 {
    } else if a[0] <= b[0] {
        lemma_merge_bounded_below(a.drop_first(), b, x);
    } else {
        lemma_merge_bounded_below(a, b.drop_first(), x);
    }
}

/// The merge of two ascending sequences is ascending.
pub proof fn lemma_merge_ascending(a: Seq<i64>, b: Seq<i64>)
    requires
        is_ascending(a),
        is_ascending(b),
    ensures
        is_ascending(merge_spec(a, b)),
    decreases a.len() + b.len(),
{
    let m = merge_spec(a, b);
    if a.len() == 0 || b.len() == 0 {
    } else if a[0] <= b[0] {
        let rest = merge_spec(a.drop_first(), b);
        lemma_merge_ascending(a.drop_first(), b);
        lemma_merge_bounded_below(a.drop_first(), b, a[0]);
        assert forall|i: int, j: int| 0 <= i < j < m.len() implies m[i] <= m[j] by {
            if i > 0 {
                assert(m[i] == rest[i - 1] && m[j] == rest[j - 1]);
            } else {
                assert(m[j] == rest[j - 1]);
            }
        }
    } else {
        let rest = merge_spec(a, b.drop_first());
        lemma_merge_ascending(a, b.drop_first());
        lemma_merge_bounded_below(a, b.drop_first(), b[0]);
        assert forall|i: int, j: int| 0 <= i < j < m.len() implies m[i] <= m[j] by {
            if i > 0 {
                assert(m[i] == rest[i - 1] && m[j] == rest[j - 1]);
            } else {
                assert(m[j] == rest[j - 1]);
            }
        }
    }
}

/// Two ascending sequences that hold the same values with the same
/// multiplicities are the same sequence.
pub proof fn lemma_ascending_unique(s: Seq<i64>, t: Seq<i64>)
    requires
        is_ascending(s),
        is_ascending(t),
        s.to_multiset() == t.to_multiset(),
    ensures
        s == t,
{
    let leq = |x: i64, y: i64| x <= y;
    assert(vstd::relations::total_ordering(leq));
    assert(vstd::relations::sorted_by(s, leq));
    assert(vstd::relations::sorted_by(t, leq));
    lemma_sorted_unique(s, t, leq);
}

/// Merging ascending sequences is commutative.
pub proof fn lemma_merge_commutative(a: Seq<i64>, b: Seq<i64>)
    requires
        is_ascending(a),
        is_ascending(b),
    ensures
        merge_spec(a, b) == merge_spec(b, a),
{
    broadcast use group_multiset_axioms;
    lemma_merge_ascending(a, b);
    lemma_merge_ascending(b, a);
    lemma_merge_multiset(a, b);
    lemma_merge_multiset(b, a);
    assert(a.to_multiset().add(b.to_multiset()) =~= b.to_multiset().add(a.to_multiset()));
    lemma_ascending_unique(merge_spec(a, b), merge_spec(b, a));
}

/// Merging ascending sequences is associative.
pub proof fn lemma_merge_associative(a: Seq<i64>, b: Seq<i64>, c: Seq<i64>)
    requires
        is_ascending(a),
        is_ascending(b),
        is_ascending(c),
    ensures
        merge_spec(merge_spec(a, b), c) == merge_spec(a, merge_spec(b, c)),
{
    broadcast use group_multiset_axioms;
    lemma_merge_ascending(a, b);
    lemma_merge_ascending(b, c);
    lemma_merge_ascending(merge_spec(a, b), c);
    lemma_merge_ascending(a, merge_spec(b, c));
    lemma_merge_multiset(a, b);
    lemma_merge_multiset(b, c);
    lemma_merge_multiset(merge_spec(a, b), c);
    lemma_merge_multiset(a, merge_spec(b, c));
    assert(a.to_multiset().add(b.to_multiset()).add(c.to_multiset()) =~= a.to_multiset().add(
        b.to_multiset().add(c.to_multiset()),
    ));
    lemma_ascending_unique(merge_spec(merge_spec(a, b), c), merge_spec(a, merge_spec(b, c)));
}

/// Folding ascending chunks yields an ascending sequence that holds exactly
/// the values of all chunks.
pub proof fn lemma_merge_all_sorted(chunks: Seq<Seq<i64>>)
    ensures
        merge_all(chunks).to_multiset() == combined(chunks),
        all_ascending(chunks) ==> is_ascending(merge_all(chunks)),
    decreases chunks.len(),
{
    if chunks.len() == 0 {
        broadcast use group_multiset_axioms, group_to_multiset_ensures;
        assert(Seq::<i64>::empty().to_multiset() =~= Multiset::<i64>::empty());
    } else {
        let front = chunks.drop_last();
        lemma_merge_all_sorted(front);
        lemma_merge_multiset(merge_all(front), chunks.last());
        if all_ascending(chunks) {
            assert forall|i: int| 0 <= i < front.len() implies is_ascending(
                #[trigger] front[i],
            ) by {
                assert(front[i] == chunks[i]);
            }
            lemma_merge_ascending(merge_all(front), chunks.last());
        }
    }
}

/// Taking one chunk out takes exactly its values out of what the chunks
/// hold together.
proof fn lemma_combined_remove(chunks: Seq<Seq<i64>>, k: int)
    requires
        0 <= k < chunks.len(),
    ensures
        combined(chunks) == combined(chunks.remove(k)).add(chunks[k].to_multiset()),
    decreases chunks.len(),
{
    broadcast use group_multiset_axioms;
    if k == chunks.len() - 1 {
        assert(chunks.remove(k) =~= chunks.drop_last());
    } else {
        let front = chunks.drop_last();
        lemma_combined_remove(front, k);
        assert(chunks.remove(k).drop_last() =~= front.remove(k));
        assert(chunks.remove(k).last() == chunks.last());
        assert(combined(chunks.remove(k)) == combined(front.remove(k)).add(
            chunks.last().to_multiset(),
        ));
        assert(combined(front.remove(k)).add(front[k].to_multiset()).add(
            chunks.last().to_multiset(),
        ) =~= combined(front.remove(k)).add(chunks.last().to_multiset()).add(
            chunks[k].to_multiset(),
        ));
    }
}

/// What the chunks hold together does not depend on their order.
proof fn lemma_combined_permutation(xs: Seq<Seq<i64>>, ys: Seq<Seq<i64>>)
    requires
        xs.to_multiset() == ys.to_multiset(),
    ensures
        combined(xs) == combined(ys),
    decreases xs.len(),
{
    broadcast use group_multiset_axioms;
    xs.to_multiset_ensures();
    ys.to_multiset_ensures();
    if xs.len() == 0 {
        assert(ys.len() == 0);
    } else {
        let last = xs.last();
        assert(xs.to_multiset().contains(xs[xs.len() - 1]));
        assert(ys.to_multiset().contains(last));
        assert(ys.contains(last));
        let k = choose|k: int| 0 <= k < ys.len() && ys[k] == last;
        to_multiset_remove(ys, k);
        to_multiset_remove(xs, xs.len() - 1);
        assert(xs.remove(xs.len() - 1) =~= xs.drop_last());
        lemma_combined_permutation(xs.drop_last(), ys.remove(k));
        lemma_combined_remove(ys, k);
    }
}

/// What the chunks hold together depends only on what each chunk holds, not
/// on the order of the values inside a chunk.
pub proof fn lemma_combined_by_chunk(xs: Seq<Seq<i64>>, ys: Seq<Seq<i64>>)
    requires
        xs.len() == ys.len(),
        forall|i: int| 0 <= i < xs.len() ==> (#[trigger] xs[i]).to_multiset() == ys[i].to_multiset(),
    ensures
        combined(xs) == combined(ys),
    decreases xs.len(),
{
    if xs.len() > 0 {
        lemma_combined_by_chunk(xs.drop_last(), ys.drop_last());
        assert(xs.last() == xs[xs.len() - 1]);
    }
}

/// The final result does not depend on the order in which the chunk
/// responses arrive: folding any rearrangement of the same ascending chunks
/// yields the same sequence.
pub proof fn lemma_arrival_order_irrelevant(xs: Seq<Seq<i64>>, ys: Seq<Seq<i64>>)
    requires
        all_ascending(xs),
        xs.to_multiset() == ys.to_multiset(),
    ensures
        merge_all(xs) == merge_all(ys),
{
    xs.to_multiset_ensures();
    ys.to_multiset_ensures();
    assert forall|j: int| 0 <= j < ys.len() implies is_ascending(#[trigger] ys[j]) by {
        assert(ys.to_multiset().contains(ys[j]));
        assert(xs.contains(ys[j]));
        let i = choose|i: int| 0 <= i < xs.len() && xs[i] == ys[j];
        assert(is_ascending(xs[i]));
    }
    lemma_merge_all_sorted(xs);
    lemma_merge_all_sorted(ys);
    lemma_combined_permutation(xs, ys);
    lemma_ascending_unique(merge_all(xs), merge_all(ys));
}

/// Merges two sequences into one. For ascending inputs the result is the
/// ascending sequence that holds exactly the values of both.
pub fn merge(v1: &Vec<i64>, v2: &Vec<i64>) -> (result: Vec<i64>)
    ensures
        result@ == merge_spec(v1@, v2@),
        result@.len() == v1@.len() + v2@.len(),
        result@.to_multiset() == v1@.to_multiset().add(v2@.to_multiset()),
        is_ascending(v1@) && is_ascending(v2@) ==> is_ascending(result@),
{
    let mut i: usize = 0;
    let mut j: usize = 0;
    let mut result: Vec<i64> = Vec::new();
    proof {
        assert(v1@.skip(0) =~= v1@);
        assert(v2@.skip(0) =~= v2@);
        assert(result@ + merge_spec(v1@, v2@) =~= merge_spec(v1@, v2@));
    }
    while i < v1.len() || j < v2.len()
        invariant
            i <= v1.len(),
            j <= v2.len(),
            result@ + merge_spec(v1@.skip(i as int), v2@.skip(j as int)) == merge_spec(v1@, v2@),
        decreases v1.len() - i + v2.len() - j,
    {
        let ghost a = v1@.skip(i as int);
        let ghost b = v2@.skip(j as int);
        let ghost before = result@;
        if i == v1.len() {
            result.push(v2[j]);
            j += 1;
            proof {
                assert(merge_spec(a, b) == b);
                lemma_merge_empty(v2@.skip(j as int));
                assert(b =~= seq![b[0]] + v2@.skip(j as int));
                assert(result@ + v2@.skip(j as int) =~= before + b);
            }
        } else if j == v2.len() {
            result.push(v1[i]);
            i += 1;
            proof {
                assert(merge_spec(a, b) == a);
                lemma_merge_empty(v1@.skip(i as int));
                assert(a =~= seq![a[0]] + v1@.skip(i as int));
                assert(result@ + v1@.skip(i as int) =~= before + a);
            }
        } else if v1[i] <= v2[j] {
            result.push(v1[i]);
            i += 1;
            proof {
                assert(a.drop_first() =~= v1@.skip(i as int));
                assert(result@ + merge_spec(v1@.skip(i as int), b) =~= before + merge_spec(a, b));
            }
        } else {
            result.push(v2[j]);
            j += 1;
            proof {
                assert(b.drop_first() =~= v2@.skip(j as int));
                assert(result@ + merge_spec(a, v2@.skip(j as int)) =~= before + merge_spec(a, b));
            }
        }
    }
    proof {
        assert(v1@.skip(i as int) =~= Seq::<i64>::empty());
        assert(result@ =~= result@ + merge_spec(v1@.skip(i as int), v2@.skip(j as int)));
        lemma_merge_multiset(v1@, v2@);
        if is_ascending(v1@) && is_ascending(v2@) {
            lemma_merge_ascending(v1@, v2@);
        }
    }
    result
}

} // verus!
