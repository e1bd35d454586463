use vstd::prelude::*;
use crate::model::{Record, RecordModel, TableModel, record_keys, table_model, table_wf};

verus! {

/// The headings `acc` extended by the keys of `r` not yet among them, in the
/// record's key order.
pub open spec fn add_keys(acc: Seq<Seq<char>>, r: RecordModel) -> Seq<Seq<char>>
    decreases r.len(),
{
    if r.len() == 0 {
        acc
    } else {
        let a = add_keys(acc, r.drop_last());
        if a.contains(r.last().0) {
            a
        } else {
            a.push(r.last().0)
        }
    }
}

/// Every key of the table, once each, in the order of first occurrence when
/// the records are scanned in order and each record's keys in order.
pub open spec fn inferred_headings(t: TableModel) -> Seq<Seq<char>>
    decreases t.len(),
{
    if t.len() == 0 {
        Seq::empty()
    } else {
        add_keys(inferred_headings(t.drop_last()), t.last())
    }
}

/// Whether `key` is among the headings in `acc`.
fn holds_heading(acc: &Vec<String>, key: &String) -> (r: bool)
    ensures
        r == acc@.map_values(|s: String| s@).contains(key@),
{
    let ghost v = acc@.map_values(|s: String| s@);
    let mut i: usize = 0;
    while i < acc.len()
        invariant
            v == acc@.map_values(|s: String| s@),
            0 <= i <= acc.len(),
            forall|j: int| 0 <= j < i ==> v[j] != key@,
        decreases acc.len() - i,
    {
        if acc[i] == *key {
            assert(v[i as int] == key@);
            return true;
        }
        i = i + 1;
    }
    false
}

/// Appends to `acc` the keys of `r` that it does not hold yet.
fn add_record_keys(acc: &mut Vec<String>, r: &Record)
    ensures
        final(acc)@.map_values(|s: String| s@) == add_keys(old(acc)@.map_values(|s: String| s@), r@),
{
    let ghost start = old(acc)@.map_values(|s: String| s@);
    let n = r.entries.len();
    let mut i: usize = 0;
    while i < n
        invariant
            n == r.entries.len(),
            0 <= i <= n,
            start == old(acc)@.map_values(|s: String| s@),
            acc@.map_values(|s: String| s@) == add_keys(start, r@.subrange(0, i as int)),
        decreases n - i,
    {
        let ghost prefix = r@.subrange(0, i as int + 1);
        assert(prefix.drop_last() =~= r@.subrange(0, i as int));
        let key = &r.entries[i].0;
        if !holds_heading(acc, key) {
            acc.push(key.clone());
            assert(acc@.map_values(|s: String| s@) =~= add_keys(start, r@.subrange(0, i as int)).push(key@));
        }
        i = i + 1;
    }
    assert(r@.subrange(0, n as int) =~= r@);
}

/// The headings of a table when none are given: every key, in order of first
/// occurrence.
pub fn infer_headings(table: &Vec<Record>) -> (r: Vec<String>)
    requires
        table_wf(table_model(table@)),
    ensures
        r@.map_values(|s: String| s@) == inferred_headings(table_model(table@)),
{
    let ghost t = table_model(table@);
    let mut acc: Vec<String> = Vec::new();
    let mut k: usize = 0;
    assert(acc@.map_values(|s: String| s@) =~= Seq::<Seq<char>>::empty());
    while k < table.len()
        invariant
            t == table_model(table@),
            0 <= k <= table.len(),
            acc@.map_values(|s: String| s@) == inferred_headings(t.subrange(0, k as int)),
        decreases table.len() - k,
    {
        assert(t.subrange(0, k as int + 1).drop_last() =~= t.subrange(0, k as int));
        add_record_keys(&mut acc, &table[k]);
        k = k + 1;
    }
    assert(t.subrange(0, table.len() as int) =~= t);
    acc
}

/// All keys of the table, record after record, each record's in its order.
pub open spec fn all_keys(t: TableModel) -> Seq<Seq<char>>
    decreases t.len(),
{
    if t.len() == 0 {
        Seq::empty()
    } else {
        all_keys(t.drop_last()) + record_keys(t.last())
    }
}

/// `hs` lists the keys of `ks` once each, in order of first occurrence: no
/// repeats, the same keys, and every occurrence of a later heading in `ks`
/// comes after some occurrence of each earlier one.
pub open spec fn first_occurrence_order(hs: Seq<Seq<char>>, ks: Seq<Seq<char>>) -> bool {
    &&& forall|i: int, j: int| 0 <= i < j < hs.len() ==> hs[i] != hs[j]
    &&& forall|x: Seq<char>| hs.contains(x) <==> ks.contains(x)
    &&& forall|i: int, j: int, p: int|
        #![trigger ks[p], hs[i], hs[j]]
        0 <= i < j < hs.len() && 0 <= p < ks.len() && ks[p] == hs[j] ==> occurs_before(ks, hs[i], p)
}

/// `x` occurs in `ks` before position `p`.
pub open spec fn occurs_before(ks: Seq<Seq<char>>, x: Seq<char>, p: int) -> bool {
    exists|q: int| 0 <= q < p && ks[q] == x
}

proof fn lemma_order_step(hs: Seq<Seq<char>>, ks: Seq<Seq<char>>, k: Seq<char>)
    requires
        first_occurrence_order(hs, ks),
    ensures
        first_occurrence_order(if hs.contains(k) { hs } else { hs.push(k) }, ks.push(k)),
{
    let ks2 = ks.push(k);
    assert forall|x: Seq<char>| ks2.contains(x) <==> (ks.contains(x) || x == k) by {
        if ks2.contains(x) {
            let p = choose|p: int| 0 <= p < ks2.len() && ks2[p] == x;
            if p < ks.len() {
                assert(ks[p] == x);
            }
        }
        if ks.contains(x) {
            let p = choose|p: int| 0 <= p < ks.len() && ks[p] == x;
            assert(ks2[p] == x);
        }
        if x == k {
            assert(ks2[ks.len() as int] == x);
        }
    }
    if hs.contains(k) {
        assert forall|i: int, j: int, p: int|
            #![trigger ks2[p], hs[i], hs[j]]
            0 <= i < j < hs.len() && 0 <= p < ks2.len() && ks2[p] == hs[j] implies occurs_before(ks2, hs[i], p) by {
            if p < ks.len() {
                assert(ks[p] == hs[j]);
                assert(occurs_before(ks, hs[i], p));
                let q = choose|q: int| 0 <= q < p && ks[q] == hs[i];
                assert(ks2[q] == hs[i]);
            } else {
                assert(hs.contains(hs[i]));
                let q = choose|q: int| 0 <= q < ks.len() && ks[q] == hs[i];
                assert(ks2[q] == hs[i]);
            }
        }
        assert forall|x: Seq<char>| hs.contains(x) <==> ks2.contains(x) by {
            if x == k {
                assert(hs.contains(k));
            }
        }
        assert(forall|i: int, j: int| 0 <= i < j < hs.len() ==> hs[i] != hs[j]);
    } else {
        let hs2 = hs.push(k);
        assert forall|x: Seq<char>| hs2.contains(x) <==> (hs.contains(x) || x == k) by {
            if hs2.contains(x) {
                let p = choose|p: int| 0 <= p < hs2.len() && hs2[p] == x;
                if p < hs.len() {
                    assert(hs[p] == x);
                }
            }
            if hs.contains(x) {
                let p = choose|p: int| 0 <= p < hs.len() && hs[p] == x;
                assert(hs2[p] == x);
            }
            if x == k {
                assert(hs2[hs.len() as int] == x);
            }
        }
        assert forall|i: int, j: int| 0 <= i < j < hs2.len() implies hs2[i] != hs2[j] by {
            if j == hs.len() {
                assert(hs.contains(hs[i]));
            }
        }
        assert forall|i: int, j: int, p: int|
            #![trigger ks2[p], hs2[i], hs2[j]]
            0 <= i < j < hs2.len() && 0 <= p < ks2.len() && ks2[p] == hs2[j] implies occurs_before(ks2, hs2[i], p) by {
            assert(hs2[i] == hs[i]);
            if p < ks.len() {
                assert(ks[p] == hs2[j]);
                if j == hs.len() {
                    assert(ks.contains(k));
                } else {
                    assert(hs2[j] == hs[j]);
                    assert(occurs_before(ks, hs[i], p));
                let q = choose|q: int| 0 <= q < p && ks[q] == hs[i];
                    assert(ks2[q] == hs2[i]);
                }
            } else {
                assert(hs.contains(hs[i]));
                let q = choose|q: int| 0 <= q < ks.len() && ks[q] == hs[i];
                assert(ks2[q] == hs2[i]);
            }
        }
    }
}

proof fn lemma_order_record(hs: Seq<Seq<char>>, ks: Seq<Seq<char>>, r: RecordModel)
    requires
        first_occurrence_order(hs, ks),
    ensures
        first_occurrence_order(add_keys(hs, r), ks + record_keys(r)),
    decreases r.len(),
{
    if r.len() == 0 {
        assert(ks + record_keys(r) =~= ks);
    } else {
        lemma_order_record(hs, ks, r.drop_last());
        let a = add_keys(hs, r.drop_last());
        lemma_order_step(a, ks + record_keys(r.drop_last()), r.last().0);
        assert((ks + record_keys(r.drop_last())).push(r.last().0) =~= ks + record_keys(r));
    }
}

/// The inferred headings are the table's keys once each, in order of first
/// occurrence when records, and the keys within each, are scanned in order.
pub proof fn lemma_inferred_order(t: TableModel)
    ensures
        first_occurrence_order(inferred_headings(t), all_keys(t)),
    decreases t.len(),
{
    if t.len() > 0 {
        lemma_inferred_order(t.drop_last());
        lemma_order_record(inferred_headings(t.drop_last()), all_keys(t.drop_last()), t.last());
    }
}

} // verus!
