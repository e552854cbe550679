//! Tables keyed by 16-bit call numbers, and the order in which they are walked.

use std::collections::BTreeMap;
use vstd::prelude::*;
use vstd::std_specs::btree::{increasing_seq, spec_keys_iter};
use vstd::std_specs::cmp::OrdSpec;
use vstd::std_specs::iter::IteratorSpec;

verus! {

broadcast use vstd::laws_cmp::group_laws_cmp;

/// The keys below `n`, in ascending order.
pub open spec fn ids_below<V>(table: Map<u16, V>, n: int) -> Seq<u16>
    decreases n,
{
    if n <= 0 {
        Seq::empty()
    } else if table.contains_key((n - 1) as u16) {
        ids_below(table, n - 1).push((n - 1) as u16)
    } else {
        ids_below(table, n - 1)
    }
}

/// The keys of a map, in ascending order.
pub open spec fn ids_of<V>(table: Map<u16, V>) -> Seq<u16> {
    ids_below(table, 0x1_0000)
}

/// Every number is lower than those after it.
pub open spec fn ascending(s: Seq<u16>) -> bool {
    forall|i: int, j: int| 0 <= i < j < s.len() ==> s[i] < s[j]
}

/// The keys below `n` come in ascending order, and all of them come.
pub proof fn lemma_ids_below<V>(table: Map<u16, V>, n: int)
    requires
        0 <= n <= 0x1_0000,
    ensures
        ascending(ids_below(table, n)),
        forall|k: u16| #[trigger]
            ids_below(table, n).contains(k) <==> table.contains_key(k) && k < n,
    decreases n,
{
    if n > 0 {
        lemma_ids_below(table, n - 1);
        let before = ids_below(table, n - 1);
        let last = (n - 1) as u16;
        if table.contains_key(last) {
            assert forall|i: int| 0 <= i < before.len() implies before[i] < last by {
                assert(before.contains(before[i]));
            }
            assert(before.push(last)[before.len() as int] == last);
            assert forall|k: u16| #[trigger]
                before.push(last).contains(k) <==> table.contains_key(k) && k < n by {
                if before.contains(k) {
                    let i = choose|i: int| 0 <= i < before.len() && before[i] == k;
                    assert(before.push(last)[i] == k);
                }
                if before.push(last).contains(k) && k != last {
                    let i = choose|i: int|
                        0 <= i < before.push(last).len() && before.push(last)[i] == k;
                    assert(before[i] == k);
                }
            }
        }
    }
}

/// Two ascending lists of the same numbers are one.
pub proof fn lemma_ascending_unique(a: Seq<u16>, b: Seq<u16>)
    requires
        ascending(a),
        ascending(b),
        forall|k: u16| #[trigger] a.contains(k) <==> b.contains(k),
    ensures
        a == b,
    decreases a.len(),
{
    if a.len() == 0 {
        if b.len() > 0 {
            assert(b.contains(b[0]));
            assert(a.contains(b[0]));
        }
        assert(a =~= b);
    } else {
        assert(a.contains(a.last()));
        assert(b.contains(a.last()));
        assert(b.contains(b.last()));
        assert(a.contains(b.last()));
        assert(a.last() == b.last());
        let x = a.drop_last();
        let y = b.drop_last();
        assert forall|k: u16| #[trigger] x.contains(k) <==> y.contains(k) by {
            if x.contains(k) {
                let i = choose|i: int| 0 <= i < x.len() && x[i] == k;
                assert(a[i] == k);
                assert(a.contains(k));
                assert(b.contains(k));
                let j = choose|j: int| 0 <= j < b.len() && b[j] == k;
                assert(y[j] == k);
            }
            if y.contains(k) {
                let i = choose|i: int| 0 <= i < y.len() && y[i] == k;
                assert(b[i] == k);
                assert(b.contains(k));
                assert(a.contains(k));
                let j = choose|j: int| 0 <= j < a.len() && a[j] == k;
                assert(x[j] == k);
            }
        }
        lemma_ascending_unique(x, y);
        assert(a =~= x.push(a.last()));
        assert(b =~= y.push(b.last()));
    }
}

/// The keys of a table, in ascending order.
pub fn keys_of<V>(table: &BTreeMap<u16, V>) -> (r: Vec<u16>)
    ensures
        r@ == ids_of(table@),
        ascending(r@),
        forall|k: u16| #[trigger] r@.contains(k) <==> table@.contains_key(k),
{
    let mut ids: Vec<u16> = Vec::new();
    for k in it: table.keys()
        invariant
            ids@.len() == it.index(),
            forall|i: int| 0 <= i < ids@.len() ==> ids@[i] == *it.seq()[i],
    {
        ids.push(*k);
    }
    proof {
        let keys = spec_keys_iter(table).remaining();
        assert(ids@ =~= keys.unref());
        broadcast use vstd::std_specs::btree::axiom_increasing_seq_meaning;
        assert forall|i: int, j: int| 0 <= i < j < ids@.len() implies ids@[i] < ids@[j] by {
            assert(increasing_seq(keys));
            assert(vstd::laws_cmp::obeys_cmp::<&u16>());
            assert(OrdSpec::cmp_spec(&keys[i], &keys[j]) is Less);
        }
        lemma_ids_below(table@, 0x1_0000);
        lemma_ascending_unique(ids@, ids_of(table@));
    }
    ids
}

} // verus!
