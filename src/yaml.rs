use vstd::prelude::*;
use linked_hash_map::LinkedHashMap;
use crate::model::{Record, table_model, table_wf};
use crate::markdown::{markdown, mk_table, mk_table_all_cols, texts};
use crate::columns::inferred_headings;
use crate::aggregate::{
    ErroredTable, NamedTable, outcome_models, survivors, successes, named_models, collect_tables,
    lemma_single_success, lemma_failures_ignored, NamedModel, outcomes_wf,
    lemma_distinct_names_in_order, names_unique, success_entries,
};

verus! {

#[verifier::external_type_specification]
#[verifier::external_body]
pub struct ExYamlError(serde_yaml::Error);

/// Why a conversion between YAML and tables failed.
#[derive(Debug)]
pub enum TableError {
    /// The text is not YAML for a list of flat string-to-string maps: the
    /// parser's error.
    Decode(serde_yaml::Error),
    /// The tables could not be written out as YAML: the serializer's error.
    Encode(serde_yaml::Error),
}

/// The table that the YAML text describes, or `None` when it is not a list of
/// flat string-to-string maps.
pub uninterp spec fn decoded_yaml(s: Seq<char>) -> Option<Seq<Seq<(Seq<char>, Seq<char>)>>>;

/// The YAML text of a bare table (a list of maps), or `None` on failure.
pub uninterp spec fn encoded_table(t: Seq<Seq<(Seq<char>, Seq<char>)>>) -> Option<Seq<char>>;

/// The YAML text of an ordered mapping from names to tables, or `None` on
/// failure.
pub uninterp spec fn encoded_tables(m: Seq<(Seq<char>, Seq<Seq<(Seq<char>, Seq<char>)>>)>) -> Option<Seq<char>>;

/// Relies on `serde_yaml::from_str` into a list of `LinkedHashMap`s, which
/// keeps records and keys in document order; the result depends on the text
/// alone. A map cannot hold a key twice. Events are read in a loop and
/// nesting is capped while deserializing, so no text exhausts the stack.
#[verifier::external_body]
fn decode_records(yaml: &str) -> (r: Result<Vec<Record>, serde_yaml::Error>)
    ensures
        match r {
            Ok(t) => decoded_yaml(yaml@) == Some(table_model(t@)) && table_wf(table_model(t@)),
            Err(_) => decoded_yaml(yaml@) is None,
        },
{
    serde_yaml::from_str::<Vec<LinkedHashMap<String, String>>>(yaml).map(
        |t| t.into_iter().map(|m| Record { entries: m.into_iter().collect() }).collect(),
    )
}

/// Relies on `serde_yaml::to_string` of a list of `LinkedHashMap`s, which
/// writes the maps and their keys in order; the result depends on the table
/// alone.
#[verifier::external_body]
fn encode_table(t: &Vec<Record>) -> (r: Result<String, serde_yaml::Error>)
    ensures
        match r {
            Ok(s) => encoded_table(table_model(t@)) == Some(s@),
            Err(_) => encoded_table(table_model(t@)) is None,
        },
{
    let rows: Vec<LinkedHashMap<String, String>> =
        t.iter().map(|r| r.entries.iter().cloned().collect()).collect();
    serde_yaml::to_string(&rows)
}

/// Relies on `serde_yaml::to_string` of a `LinkedHashMap` from names to lists
/// of `LinkedHashMap`s, which writes every map in order; the result depends on
/// the entries alone.
#[verifier::external_body]
fn encode_tables(m: &Vec<NamedTable>) -> (r: Result<String, serde_yaml::Error>)
    ensures
        match r {
            Ok(s) => encoded_tables(named_models(m@)) == Some(s@),
            Err(_) => encoded_tables(named_models(m@)) is None,
        },
{
    let map: LinkedHashMap<String, Vec<LinkedHashMap<String, String>>> = m.iter().map(
        |n| (n.name.clone(), n.table.iter().map(|r| r.entries.iter().cloned().collect()).collect()),
    ).collect();
    serde_yaml::to_string(&map)
}

/// The pieces of `s` between commas, untrimmed: one more piece than there
/// are commas.
pub open spec fn split_commas(s: Seq<char>) -> Seq<Seq<char>>
    decreases s.len(),
{
    if s.len() == 0 {
        seq![Seq::empty()]
    } else {
        let rest = split_commas(s.drop_last());
        if s.last() == ',' {
            rest.push(Seq::empty())
        } else {
            rest.update(rest.len() - 1, rest.last().push(s.last()))
        }
    }
}

/// The pieces of `s` between commas, in order, empty ones included.
fn split_on_commas(s: &str) -> (r: Vec<String>)
    ensures
        texts(r@) == split_commas(s@),
{
    let n = s.unicode_len();
    let mut pieces: Vec<String> = Vec::new();
    let mut start: usize = 0;
    let mut i: usize = 0;
    assert(s@.subrange(0, 0) =~= Seq::<char>::empty());
    assert(texts(pieces@).push(s@.subrange(0, 0)) =~= seq![Seq::<char>::empty()]);
    while i < n
        invariant
            n == s@.len(),
            0 <= start <= i <= n,
            texts(pieces@).push(s@.subrange(start as int, i as int)) == split_commas(s@.subrange(0, i as int)),
        decreases n - i,
    {
        let ghost pre = s@.subrange(0, i as int + 1);
        assert(pre.drop_last() =~= s@.subrange(0, i as int));
        let c = s.get_char(i);
        if c == ',' {
            let piece = s.substring_char(start, i).to_owned();
            pieces.push(piece);
            start = i + 1;
            assert(s@.subrange(start as int, start as int) =~= Seq::<char>::empty());
        } else {
            assert(s@.subrange(start as int, i as int).push(c) =~= s@.subrange(start as int, i as int + 1));
        }
        i = i + 1;
        assert(texts(pieces@).push(s@.subrange(start as int, i as int)) =~= split_commas(pre));
    }
    let last = s.substring_char(start, n).to_owned();
    pieces.push(last);
    assert(s@.subrange(0, n as int) =~= s@);
    assert(texts(pieces@) =~= split_commas(s@));
    pieces
}

/// Reads a YAML list of flat maps into a table.
pub fn load_yaml(yaml: &str) -> (r: Result<Vec<Record>, TableError>)
    ensures
        match decoded_yaml(yaml@) {
            Some(t) => r is Ok && table_model(r->Ok_0@) == t && table_wf(t),
            None => r is Err && r->Err_0 is Decode,
        },
{
    match decode_records(yaml) {
        Ok(t) => Ok(t),
        Err(e) => Err(TableError::Decode(e)),
    }
}

/// The Markdown table of the YAML records, with the given columns in order.
pub fn mk_md_table_from_yaml_with_headings(headings: &[String], yaml: &str) -> (r: Result<String, TableError>)
    ensures
        match decoded_yaml(yaml@) {
            Some(t) => r is Ok && r->Ok_0@ == markdown(texts(headings@), t),
            None => r is Err && r->Err_0 is Decode,
        },
{
    let t = load_yaml(yaml)?;
    Ok(mk_table(headings, &t))
}

/// The Markdown table of the YAML records, with the columns named in the
/// comma-separated list `headings` (names are not trimmed).
pub fn mk_md_table_from_yaml_with_headings_list(headings: &str, yaml: &str) -> (r: Result<String, TableError>)
    ensures
        match decoded_yaml(yaml@) {
            Some(t) => r is Ok && r->Ok_0@ == markdown(split_commas(headings@), t),
            None => r is Err && r->Err_0 is Decode,
        },
{
    let hs = split_on_commas(headings);
    mk_md_table_from_yaml_with_headings(hs.as_slice(), yaml)
}

/// The Markdown table of the YAML records over all of their keys, in order of
/// first occurrence.
pub fn mk_md_table_from_yaml(yaml: &str) -> (r: Result<String, TableError>)
    ensures
        match decoded_yaml(yaml@) {
            Some(t) => r is Ok && r->Ok_0@ == markdown(inferred_headings(t), t),
            None => r is Err && r->Err_0 is Decode,
        },
{
    let t = load_yaml(yaml)?;
    Ok(mk_table_all_cols(&t))
}

/// The YAML text for a list of outcomes: a lone surviving table is written
/// bare, otherwise the whole mapping from names to tables.
pub open spec fn aggregate_yaml(os: Seq<Option<NamedModel>>) -> Option<Seq<char>> {
    let m = survivors(os);
    if m.len() == 1 {
        encoded_table(m[0].1)
    } else {
        encoded_tables(m)
    }
}

/// Writes the successful tables back out as YAML: failures are dropped; a
/// single survivor is written as a bare table, any other number as a mapping
/// from name to table in order of first appearance.
pub fn mk_yaml_from_table_result(tables: Vec<Result<NamedTable, ErroredTable>>) -> (r: Result<String, TableError>)
    requires
        outcomes_wf(outcome_models(tables@)),
    ensures
        match aggregate_yaml(outcome_models(tables@)) {
            Some(s) => r is Ok && r->Ok_0@ == s,
            None => r is Err && r->Err_0 is Encode,
        },
{
    let m = collect_tables(tables);
    let enc = if m.len() == 1 {
        encode_table(&m[0].table)
    } else {
        encode_tables(&m)
    };
    match enc {
        Ok(s) => Ok(s),
        Err(e) => Err(TableError::Encode(e)),
    }
}

/// A single successful outcome, among any number of failures, is written as
/// its table alone, with no name around it.
pub proof fn lemma_single_table_unwrapped(os: Seq<Option<NamedModel>>, e: NamedModel)
    requires
        successes(os) == seq![Some(e)],
    ensures
        aggregate_yaml(os) == encoded_table(e.1),
{
    lemma_single_success(os, e);
}

/// Failed outcomes change nothing in the YAML written, wherever they stand.
pub proof fn lemma_failures_leave_no_trace(os: Seq<Option<NamedModel>>)
    ensures
        aggregate_yaml(os) == aggregate_yaml(successes(os)),
{
    lemma_failures_ignored(os);
}

/// With no successful outcome, or two or more under distinct names, the YAML
/// written is the mapping from each name to its table in input order.
pub proof fn lemma_mapping_in_input_order(os: Seq<Option<NamedModel>>)
    requires
        names_unique(success_entries(os)),
        success_entries(os).len() != 1,
    ensures
        aggregate_yaml(os) == encoded_tables(success_entries(os)),
{
    lemma_distinct_names_in_order(os);
}

} // verus!
