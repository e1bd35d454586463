use vstd::prelude::*;

verus! {

/// The mathematical form of a record: its (key, value) entries in order.
pub type RecordModel = Seq<(Seq<char>, Seq<char>)>;

/// The mathematical form of a table: its records in order.
pub type TableModel = Seq<RecordModel>;

/// One flat record: an ordered list of (column name, cell value) entries.
pub struct Record {
    pub entries: Vec<(String, String)>,
}

impl View for Record {
    type V = RecordModel;

    open spec fn view(&self) -> RecordModel {
        self.entries@.map_values(|e: (String, String)| (e.0@, e.1@))
    }
}

/// The model of a table held as a vector of records.
pub open spec fn table_model(t: Seq<Record>) -> TableModel {
    t.map_values(|r: Record| r@)
}

/// No key occurs twice in the record.
pub open spec fn keys_unique(r: RecordModel) -> bool {
    forall|i: int, j: int| 0 <= i < j < r.len() ==> r[i].0 != r[j].0
}

/// Every record of the table has unique keys.
pub open spec fn table_wf(t: TableModel) -> bool {
    forall|k: int| 0 <= k < t.len() ==> keys_unique(#[trigger] t[k])
}

/// The value stored under `key` in the record, or the empty text when the
/// key is absent (the first entry wins should a key repeat).
pub open spec fn lookup(r: RecordModel, key: Seq<char>) -> Seq<char>
    decreases r.len(),
{
    if r.len() == 0 {
        Seq::empty()
    } else if r[0].0 == key {
        r[0].1
    } else {
        lookup(r.drop_first(), key)
    }
}

/// The keys of a record, in order.
pub open spec fn record_keys(r: RecordModel) -> Seq<Seq<char>> {
    r.map_values(|e: (Seq<char>, Seq<char>)| e.0)
}

impl Record {
    /// The value under `key`, or the empty string when the record lacks it.
    pub fn value_of(&self, key: &String) -> (r: String)
        ensures
            r@ == lookup(self@, key@),
    {
        let n = self.entries.len();
        let mut i: usize = 0;
        assert(self@.subrange(0, n as int) =~= self@);
        while i < n
            invariant
                n == self.entries.len(),
                0 <= i <= n,
                lookup(self@, key@) == lookup(self@.subrange(i as int, n as int), key@),
            decreases n - i,
        {
            let ghost rest = self@.subrange(i as int, n as int);
            assert(rest.drop_first() =~= self@.subrange(i + 1, n as int));
            if self.entries[i].0 == *key {
                return self.entries[i].1.clone();
            }
            i = i + 1;
        }
        String::new()
    }
}

} // verus!
