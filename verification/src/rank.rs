//! Stable ordering of `(key, index)` pairs by descending key.
//!
//! This is the ordering that `sort_by_key(|x| Reverse(key(x)))` produces:
//! larger keys first, and among equal keys the input order is kept.

use vstd::prelude::*;

verus! {

/// A ranked entry: a key and the position of the ranked element.
pub type Ranked = (u64, usize);

/// Inserts `x` into a descending sequence after every element whose key is
/// at least `x`'s key.
pub open spec fn ins_desc(s: Seq<Ranked>, x: Ranked) -> Seq<Ranked>
    decreases s.len(),
{
    if s.len() == 0 {
        seq![x]
    } else if s.last().0 >= x.0 {
        s.push(x)
    } else {
        ins_desc(s.drop_last(), x).push(s.last())
    }
}

/// The stable descending sort of `s` by key.
pub open spec fn sort_desc(s: Seq<Ranked>) -> Seq<Ranked>
    decreases s.len(),
{
    if s.len() == 0 {
        seq![]
    } else {
        ins_desc(sort_desc(s.drop_last()), s.last())
    }
}

/// Keys never increase along `s`.
pub open spec fn is_desc(s: Seq<Ranked>) -> bool {
    forall|i: int, j: int| 0 <= i < j < s.len() ==> s[i].0 >= s[j].0
}

/// Among equal keys, positions increase along `s`.
pub open spec fn ties_in_order(s: Seq<Ranked>) -> bool {
    forall|i: int, j: int| 0 <= i < j < s.len() && s[i].0 == s[j].0 ==> s[i].1 < s[j].1
}

/// Positions strictly increase along `s` (entries listed in input order).
pub open spec fn positions_increase(s: Seq<Ranked>) -> bool {
    forall|i: int, j: int| 0 <= i < j < s.len() ==> s[i].1 < s[j].1
}

/// Inserts `x` into `v` as `ins_desc` does.
pub fn insert_desc(v: &mut Vec<Ranked>, x: Ranked)
    ensures
        final(v)@ == ins_desc(old(v)@, x),
{
    let ghost s = v@;
    v.push(x);
    let mut j: usize = v.len() - 1;
    assert(s.take(j as int) =~= s);
    assert(s.skip(j as int) =~= Seq::<Ranked>::empty());
    assert(v@ =~= s.take(j as int) + seq![x] + s.skip(j as int));
    while j > 0 && v[j - 1].0 < x.0
        invariant
            j <= s.len(),
            v.len() == s.len() + 1,
            v@ == s.take(j as int) + seq![x] + s.skip(j as int),
            ins_desc(s, x) == ins_desc(s.take(j as int), x) + s.skip(j as int),
        decreases j,
    {
        let a = v[j - 1];
        proof {
            let t = s.take(j as int);
            assert(t.last() == a);
            assert(t.drop_last() =~= s.take(j - 1));
            assert(ins_desc(t, x) == ins_desc(s.take(j - 1), x).push(a));
            assert(ins_desc(s.take(j - 1), x).push(a) + s.skip(j as int) =~= ins_desc(
                s.take(j - 1),
                x,
            ) + s.skip(j - 1));
        }
        v.set(j - 1, x);
        v.set(j, a);
        j -= 1;
        assert(v@ =~= s.take(j as int) + seq![x] + s.skip(j as int));
    }
    proof {
        let t = s.take(j as int);
        if j == 0 {
            assert(ins_desc(t, x) == seq![x]);
        } else {
            assert(t.last().0 >= x.0);
            assert(ins_desc(t, x) == t.push(x));
        }
        assert(ins_desc(t, x) + s.skip(j as int) =~= t + seq![x] + s.skip(j as int));
    }
}

/// Sorts `input` by descending key, keeping the input order among equal keys.
pub fn sort_desc_stable(input: &Vec<Ranked>) -> (r: Vec<Ranked>)
    ensures
        r@ == sort_desc(input@),
{
    let mut r: Vec<Ranked> = Vec::new();
    let mut i: usize = 0;
    while i < input.len()
        invariant
            i <= input.len(),
            r@ == sort_desc(input@.take(i as int)),
        decreases input.len() - i,
    {
        proof {
            let t = input@.take(i + 1);
            assert(t.drop_last() =~= input@.take(i as int));
            assert(t.last() == input@[i as int]);
        }
        insert_desc(&mut r, input[i]);
        i += 1;
    }
    assert(input@.take(input.len() as int) =~= input@);
    r
}

// ---------------------------------------------------------------------------
// Laws of the ordering
// ---------------------------------------------------------------------------

proof fn lemma_ins_multiset(s: Seq<Ranked>, x: Ranked)
    ensures
        ins_desc(s, x).to_multiset() == s.to_multiset().insert(x),
        ins_desc(s, x).len() == s.len() + 1,
    decreases s.len(),
{
    broadcast use vstd::seq_lib::group_seq_properties;
    broadcast use vstd::multiset::group_multiset_axioms;

    if s.len() == 0 {
        assert(seq![x] =~= Seq::<Ranked>::empty().push(x));
    } else if s.last().0 >= x.0 {
    } else {
        lemma_ins_multiset(s.drop_last(), x);
        assert(s =~= s.drop_last().push(s.last()));
        assert(s.to_multiset() == s.drop_last().to_multiset().insert(s.last()));
        assert(ins_desc(s, x).to_multiset() == ins_desc(s.drop_last(), x).to_multiset().insert(
            s.last(),
        ));
        assert(ins_desc(s, x).to_multiset() =~= s.to_multiset().insert(x));
    }
}

proof fn lemma_ins_elems(s: Seq<Ranked>, x: Ranked)
    ensures
        forall|k: int|
            0 <= k < ins_desc(s, x).len() ==> #[trigger] ins_desc(s, x)[k] == x || s.contains(
                ins_desc(s, x)[k],
            ),
        ins_desc(s, x).len() == s.len() + 1,
        ins_desc(s, x).contains(x),
    decreases s.len(),
{
    if s.len() == 0 {
        assert(ins_desc(s, x)[0] == x);
    } else if s.last().0 >= x.0 {
        assert(ins_desc(s, x)[s.len() as int] == x);
        assert forall|k: int| 0 <= k < ins_desc(s, x).len() implies #[trigger] ins_desc(s, x)[k]
            == x || s.contains(ins_desc(s, x)[k]) by {
            if k < s.len() {
                assert(s[k] == ins_desc(s, x)[k]);
            }
        }
    } else {
        let t = s.drop_last();
        lemma_ins_elems(t, x);
        let it = ins_desc(t, x);
        let j = choose|j: int| 0 <= j < it.len() && it[j] == x;
        assert(ins_desc(s, x)[j] == x);
        assert forall|k: int| 0 <= k < ins_desc(s, x).len() implies #[trigger] ins_desc(s, x)[k]
            == x || s.contains(ins_desc(s, x)[k]) by {
            if k < it.len() {
                assert(ins_desc(s, x)[k] == it[k]);
                if it[k] != x {
                    let m = choose|m: int| 0 <= m < t.len() && t[m] == it[k];
                    assert(s[m] == t[m]);
                }
            } else {
                assert(ins_desc(s, x)[k] == s.last());
                assert(s[s.len() - 1] == s.last());
            }
        }
    }
}

proof fn lemma_ins_desc(s: Seq<Ranked>, x: Ranked)
    requires
        is_desc(s),
    ensures
        is_desc(ins_desc(s, x)),
    decreases s.len(),
{
    if s.len() == 0 {
    } else if s.last().0 >= x.0 {
        assert forall|i: int, j: int| 0 <= i < j < ins_desc(s, x).len() implies ins_desc(s, x)[i].0
            >= ins_desc(s, x)[j].0 by {
            if j == s.len() {
                assert(s[i].0 >= s[s.len() - 1].0);
            }
        }
    } else {
        let t = s.drop_last();
        lemma_ins_desc(t, x);
        lemma_ins_elems(t, x);
        let it = ins_desc(t, x);
        assert forall|i: int, j: int| 0 <= i < j < ins_desc(s, x).len() implies ins_desc(s, x)[i].0
            >= ins_desc(s, x)[j].0 by {
            if j == it.len() {
                assert(ins_desc(s, x)[j] == s.last());
                assert(ins_desc(s, x)[i] == it[i]);
                if it[i] != x {
                    let m = choose|m: int| 0 <= m < t.len() && t[m] == it[i];
                    assert(s[m] == t[m]);
                    assert(s[m].0 >= s[s.len() - 1].0);
                }
            } else {
                assert(ins_desc(s, x)[i] == it[i]);
                assert(ins_desc(s, x)[j] == it[j]);
            }
        }
    }
}

proof fn lemma_ins_ties(s: Seq<Ranked>, x: Ranked)
    requires
        ties_in_order(s),
        forall|k: int| 0 <= k < s.len() ==> s[k].1 < x.1,
    ensures
        ties_in_order(ins_desc(s, x)),
    decreases s.len(),
{
    if s.len() == 0 {
    } else if s.last().0 >= x.0 {
        assert forall|i: int, j: int|
            0 <= i < j < ins_desc(s, x).len() && ins_desc(s, x)[i].0 == ins_desc(
                s,
                x,
            )[j].0 implies ins_desc(s, x)[i].1 < ins_desc(s, x)[j].1 by {
            if j == s.len() {
                assert(ins_desc(s, x)[i] == s[i]);
            }
        }
    } else {
        let t = s.drop_last();
        lemma_ins_ties(t, x);
        lemma_ins_elems(t, x);
        let it = ins_desc(t, x);
        assert forall|i: int, j: int|
            0 <= i < j < ins_desc(s, x).len() && ins_desc(s, x)[i].0 == ins_desc(
                s,
                x,
            )[j].0 implies ins_desc(s, x)[i].1 < ins_desc(s, x)[j].1 by {
            if j == it.len() {
                assert(ins_desc(s, x)[j] == s.last());
                assert(ins_desc(s, x)[i] == it[i]);
                if it[i] == x {
                    assert(s.last().0 < x.0);
                } else {
                    let m = choose|m: int| 0 <= m < t.len() && t[m] == it[i];
                    assert(s[m] == t[m]);
                    assert(s[s.len() - 1] == s.last());
                }
            } else {
                assert(ins_desc(s, x)[i] == it[i]);
                assert(ins_desc(s, x)[j] == it[j]);
            }
        }
    }
}

/// Sorting by descending key keeps exactly the entries it was given
/// (the same multiset, hence the same length).
pub proof fn lemma_sort_permutes(s: Seq<Ranked>)
    ensures
        sort_desc(s).to_multiset() == s.to_multiset(),
        sort_desc(s).len() == s.len(),
    decreases s.len(),
{
    broadcast use vstd::seq_lib::group_seq_properties;

    if s.len() == 0 {
    } else {
        lemma_sort_permutes(s.drop_last());
        lemma_ins_multiset(sort_desc(s.drop_last()), s.last());
        assert(s =~= s.drop_last().push(s.last()));
        assert(s.to_multiset() == s.drop_last().to_multiset().insert(s.last()));
    }
}

/// Every entry of the sorted sequence is an entry of the input.
pub proof fn lemma_sort_elems(s: Seq<Ranked>)
    ensures
        forall|k: int| 0 <= k < sort_desc(s).len() ==> s.contains(#[trigger] sort_desc(s)[k]),
        sort_desc(s).len() == s.len(),
    decreases s.len(),
{
    if s.len() == 0 {
    } else {
        let t = s.drop_last();
        lemma_sort_elems(t);
        lemma_ins_elems(sort_desc(t), s.last());
        assert forall|k: int| 0 <= k < sort_desc(s).len() implies s.contains(
            #[trigger] sort_desc(s)[k],
        ) by {
            let e = sort_desc(s)[k];
            if e == s.last() {
                assert(s[s.len() - 1] == e);
            } else {
                let m = choose|m: int| 0 <= m < sort_desc(t).len() && sort_desc(t)[m] == e;
                let n = choose|n: int| 0 <= n < t.len() && t[n] == sort_desc(t)[m];
                assert(s[n] == t[n]);
            }
        }
    }
}

/// The sorted sequence has non-increasing keys.
pub proof fn lemma_sort_is_desc(s: Seq<Ranked>)
    ensures
        is_desc(sort_desc(s)),
    decreases s.len(),
{
    if s.len() > 0 {
        lemma_sort_is_desc(s.drop_last());
        lemma_ins_desc(sort_desc(s.drop_last()), s.last());
    }
}

/// The sort is stable: when the input lists entries by increasing
/// position, entries with equal keys keep that order.
pub proof fn lemma_sort_stable(s: Seq<Ranked>)
    requires
        positions_increase(s),
    ensures
        ties_in_order(sort_desc(s)),
    decreases s.len(),
{
    if s.len() > 0 {
        let t = s.drop_last();
        assert(positions_increase(t));
        lemma_sort_stable(t);
        lemma_sort_elems(t);
        assert forall|k: int| 0 <= k < sort_desc(t).len() implies #[trigger] sort_desc(t)[k].1
            < s.last().1 by {
            let m = choose|m: int| 0 <= m < t.len() && t[m] == sort_desc(t)[k];
            assert(s[m] == t[m]);
            assert(s[s.len() - 1] == s.last());
        }
        lemma_ins_ties(sort_desc(t), s.last());
    }
}

} // verus!
