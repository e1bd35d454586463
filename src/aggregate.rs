use vstd::prelude::*;
use crate::model::{Record, TableModel, table_model, table_wf};

verus! {

/// A table together with the name it is filed under.
pub struct NamedTable {
    pub name: String,
    pub table: Vec<Record>,
}

/// The name of a table that could not be built; it carries nothing else.
pub struct ErroredTable {
    pub name: String,
}

/// The model of a named table: its name and its table.
pub type NamedModel = (Seq<char>, TableModel);

pub open spec fn named_model(n: NamedTable) -> NamedModel {
    (n.name@, table_model(n.table@))
}

pub open spec fn named_models(v: Seq<NamedTable>) -> Seq<NamedModel> {
    v.map_values(|n: NamedTable| named_model(n))
}

/// The model of an outcome: the named table, or nothing for a failure.
pub open spec fn outcome_model(o: Result<NamedTable, ErroredTable>) -> Option<NamedModel> {
    match o {
        Ok(n) => Some(named_model(n)),
        Err(_) => None,
    }
}

pub open spec fn outcome_models(v: Seq<Result<NamedTable, ErroredTable>>) -> Seq<Option<NamedModel>> {
    v.map_values(|o: Result<NamedTable, ErroredTable>| outcome_model(o))
}

/// Every successful outcome holds a table whose records have unique keys.
pub open spec fn outcomes_wf(os: Seq<Option<NamedModel>>) -> bool {
    forall|k: int| 0 <= k < os.len() && (#[trigger] os[k]) is Some ==> table_wf(os[k]->Some_0.1)
}

/// No name is filed twice.
pub open spec fn names_unique(m: Seq<NamedModel>) -> bool {
    forall|i: int, j: int| 0 <= i < j < m.len() ==> m[i].0 != m[j].0
}

/// Files `e` in the ordered mapping `m`: an entry of the same name takes the
/// new table and keeps its place; a new name goes last.
pub open spec fn upsert(m: Seq<NamedModel>, e: NamedModel) -> Seq<NamedModel> {
    if exists|i: int| 0 <= i < m.len() && m[i].0 == e.0 {
        let i = choose|i: int| 0 <= i < m.len() && m[i].0 == e.0;
        m.update(i, e)
    } else {
        m.push(e)
    }
}

/// The ordered mapping from name to table built from the outcomes in order,
/// failures left out.
pub open spec fn survivors(os: Seq<Option<NamedModel>>) -> Seq<NamedModel>
    decreases os.len(),
{
    if os.len() == 0 {
        Seq::empty()
    } else {
        let m = survivors(os.drop_last());
        match os.last() {
            Some(e) => upsert(m, e),
            None => m,
        }
    }
}

/// The successful outcomes alone, in order.
pub open spec fn successes(os: Seq<Option<NamedModel>>) -> Seq<Option<NamedModel>> {
    os.filter(|o: Option<NamedModel>| o is Some)
}

/// Where in `acc` the name `name` is filed, if it is.
fn position_of(acc: &Vec<NamedTable>, name: &String) -> (r: Option<usize>)
    ensures
        match r {
            Some(i) => i < acc.len() && acc[i as int].name@ == name@,
            None => forall|j: int| 0 <= j < acc.len() ==> acc[j].name@ != name@,
        },
{
    let mut i: usize = 0;
    while i < acc.len()
        invariant
            0 <= i <= acc.len(),
            forall|j: int| 0 <= j < i ==> acc[j].name@ != name@,
        decreases acc.len() - i,
    {
        if acc[i].name == *name {
            return Some(i);
        }
        i = i + 1;
    }
    None
}

/// Gathers the successful outcomes into an ordered mapping from name to
/// table: failures are dropped, and a name seen again takes the later table
/// while keeping its first place.
pub fn collect_tables(outcomes: Vec<Result<NamedTable, ErroredTable>>) -> (r: Vec<NamedTable>)
    requires
        outcomes_wf(outcome_models(outcomes@)),
    ensures
        named_models(r@) == survivors(outcome_models(outcomes@)),
        names_unique(named_models(r@)),
{
    let ghost all = outcomes@;
    let ghost n = outcomes.len();
    let mut rest = outcomes;
    let mut acc: Vec<NamedTable> = Vec::new();
    let mut done: usize = 0;
    assert(named_models(acc@) =~= survivors(outcome_models(all.subrange(0, 0))));
    while rest.len() > 0
        invariant
            n == all.len(),
            0 <= done <= n,
            rest@ == all.subrange(done as int, n as int),
            named_models(acc@) == survivors(outcome_models(all.subrange(0, done as int))),
            names_unique(named_models(acc@)),
        decreases rest.len(),
    {
        let ghost before = named_models(acc@);
        let ghost os = outcome_models(all.subrange(0, done as int + 1));
        assert(os.drop_last() =~= outcome_models(all.subrange(0, done as int)));
        assert(os.last() == outcome_model(all[done as int]));
        let o = rest.remove(0);
        assert(o == all[done as int]);
        match o {
            Ok(nt) => {
                let ghost e = named_model(nt);
                match position_of(&acc, &nt.name) {
                    Some(i) => {
                        proof {
                            assert(before[i as int].0 == e.0);
                            let c = choose|c: int| 0 <= c < before.len() && before[c].0 == e.0;
                            assert(c == i as int);
                        }
                        acc.remove(i);
                        acc.insert(i, nt);
                        assert(named_models(acc@) =~= before.update(i as int, e));
                    },
                    None => {
                        assert(!exists|c: int| 0 <= c < before.len() && before[c].0 == e.0);
                        acc.push(nt);
                        assert(named_models(acc@) =~= before.push(e));
                    },
                }
            },
            Err(_) => {},
        }
        done = done + 1;
        assert(rest@ =~= all.subrange(done as int, n as int));
    }
    assert(all.subrange(0, n as int) =~= all);
    acc
}

/// Failed outcomes leave no trace: the mapping built from all outcomes is the
/// one built from the successful ones alone.
pub proof fn lemma_failures_ignored(os: Seq<Option<NamedModel>>)
    ensures
        survivors(os) == survivors(successes(os)),
    decreases os.len(),
{
    reveal_with_fuel(Seq::filter, 1);
    if os.len() > 0 {
        lemma_failures_ignored(os.drop_last());
        let f = successes(os);
        let g = successes(os.drop_last());
        if os.last() is Some {
            assert(f == g.push(os.last()));
            assert(f.drop_last() =~= g);
        } else {
            assert(f == g);
        }
    }
}

/// With exactly one successful outcome, the mapping holds that one entry.
pub proof fn lemma_single_success(os: Seq<Option<NamedModel>>, e: NamedModel)
    requires
        successes(os) == seq![Some(e)],
    ensures
        survivors(os) == seq![e],
{
    lemma_failures_ignored(os);
    let f = successes(os);
    assert(f.drop_last() =~= Seq::<Option<NamedModel>>::empty());
    assert(f.last() == Some(e));
    assert(survivors(f.drop_last()) == Seq::<NamedModel>::empty());
    assert(upsert(Seq::<NamedModel>::empty(), e) == Seq::<NamedModel>::empty().push(e));
    assert(Seq::<NamedModel>::empty().push(e) =~= seq![e]);
}

/// The successful outcomes' entries, in order.
pub open spec fn success_entries(os: Seq<Option<NamedModel>>) -> Seq<NamedModel> {
    successes(os).map_values(|o: Option<NamedModel>| o->Some_0)
}

proof fn lemma_distinct_all_kept(f: Seq<Option<NamedModel>>)
    requires
        forall|i: int| 0 <= i < f.len() ==> (#[trigger] f[i]) is Some,
        names_unique(f.map_values(|o: Option<NamedModel>| o->Some_0)),
    ensures
        survivors(f) == f.map_values(|o: Option<NamedModel>| o->Some_0),
    decreases f.len(),
{
    let e = f.map_values(|o: Option<NamedModel>| o->Some_0);
    if f.len() == 0 {
        assert(e =~= Seq::<NamedModel>::empty());
    } else {
        let g = f.drop_last();
        let eg = g.map_values(|o: Option<NamedModel>| o->Some_0);
        assert(eg =~= e.drop_last());
        lemma_distinct_all_kept(g);
        let last = f.last()->Some_0;
        assert(f.last() is Some);
        assert(last == e[e.len() - 1]);
        assert(!exists|i: int| 0 <= i < eg.len() && eg[i].0 == last.0) by {
            assert forall|i: int| 0 <= i < eg.len() implies eg[i].0 != last.0 by {
                assert(eg[i] == e[i]);
            }
        }
        assert(eg.push(last) =~= e);
    }
}

/// When the successful outcomes carry pairwise distinct names, the mapping
/// holds each of them, in input order, failures left out.
pub proof fn lemma_distinct_names_in_order(os: Seq<Option<NamedModel>>)
    requires
        names_unique(success_entries(os)),
    ensures
        survivors(os) == success_entries(os),
{
    lemma_failures_ignored(os);
    let f = successes(os);
    f.filter_lemma(|o: Option<NamedModel>| o is Some);
    lemma_distinct_all_kept(f);
}

} // verus!
