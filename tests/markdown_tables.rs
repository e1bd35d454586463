use yaml_table::aggregate::{collect_tables, ErroredTable, NamedTable};
use yaml_table::columns::infer_headings;
use yaml_table::markdown::{mk_table, mk_table_all_cols};
use yaml_table::model::Record;
use yaml_table::yaml::{
    load_yaml, mk_md_table_from_yaml, mk_md_table_from_yaml_with_headings,
    mk_md_table_from_yaml_with_headings_list, mk_yaml_from_table_result, TableError,
};

const YML_DATA: &str = "
- data1: somevalue
  data2: someother value here
  col3: 100 
  col4: gar gar
- data1: that
  data2: nice
  col3: 190x 
- data1: this
  data2: someother value here
  col3: 100 
  col4: ta da
";

fn s(x: &str) -> String {
    x.to_string()
}

fn record(pairs: &[(&str, &str)]) -> Record {
    Record { entries: pairs.iter().map(|(k, v)| (s(k), s(v))).collect() }
}

fn named(name: &str, table: Vec<Record>) -> Result<NamedTable, ErroredTable> {
    Ok(NamedTable { name: s(name), table })
}

fn failed(name: &str) -> Result<NamedTable, ErroredTable> {
    Err(ErroredTable { name: s(name) })
}

#[test]
fn can_yaml_to_md() {
    let expected = "\
|  data1  |       data2        |col3| col4  |
|---------|--------------------|----|-------|
|somevalue|someother value here|100 |gar gar|
|  that   |        nice        |190x|       |
|  this   |someother value here|100 | ta da |";

    let tbl_md = mk_md_table_from_yaml(YML_DATA).unwrap();
    assert!(tbl_md == expected);
}

#[test]
fn can_yaml_to_md_with_headings() {
    let headings = vec![s("data1"), s("data2"), s("col4")];

    let expected = "\
|  data1  |       data2        | col4  |
|---------|--------------------|-------|
|somevalue|someother value here|gar gar|
|  that   |        nice        |       |
|  this   |someother value here| ta da |";

    let tbl_md = mk_md_table_from_yaml_with_headings(&headings, YML_DATA).unwrap();
    assert!(tbl_md == expected);
}

#[test]
fn fixture_headings_are_inferred_in_order() {
    let t = load_yaml(YML_DATA).unwrap();
    assert_eq!(infer_headings(&t), vec![s("data1"), s("data2"), s("col3"), s("col4")]);
}

#[test]
fn headings_list_is_split_on_commas() {
    let from_list = mk_md_table_from_yaml_with_headings_list("data1,data2,col4", YML_DATA).unwrap();
    let headings = vec![s("data1"), s("data2"), s("col4")];
    let from_vec = mk_md_table_from_yaml_with_headings(&headings, YML_DATA).unwrap();
    assert_eq!(from_list, from_vec);
}

#[test]
fn headings_list_keeps_spaces() {
    let yml = "- a: x\n  ' a': y\n";
    let md = mk_md_table_from_yaml_with_headings_list("a, a", yml).unwrap();
    assert_eq!(md, "|a| a|\n|-|--|\n|x|y |");
}

#[test]
fn inferred_headings_in_first_occurrence_order() {
    let t = vec![
        record(&[("b", "1"), ("a", "2")]),
        record(&[("c", "3"), ("b", "4")]),
        record(&[("a", "5"), ("d", "6"), ("c", "7")]),
    ];
    assert_eq!(infer_headings(&t), vec![s("b"), s("a"), s("c"), s("d")]);
}

#[test]
fn inferred_headings_of_empty_table() {
    assert_eq!(infer_headings(&vec![]), Vec::<String>::new());
}

#[test]
fn widths_match_longest_text_on_every_line() {
    let md = mk_md_table_from_yaml(YML_DATA).unwrap();
    for line in md.lines() {
        let cells: Vec<usize> = line.split('|').map(|c| c.chars().count()).collect();
        assert_eq!(cells, vec![0, 9, 20, 4, 7, 0]);
    }
    assert_eq!(md.lines().count(), 5);
}

#[test]
fn odd_space_goes_right() {
    let t = vec![record(&[("abcd", "x")])];
    let md = mk_table(&[s("abcd")], &t);
    assert_eq!(md, "|abcd|\n|----|\n| x  |");
}

#[test]
fn width_counts_characters_not_bytes() {
    let t = vec![record(&[("h", "é€")])];
    let md = mk_table_all_cols(&t);
    assert_eq!(md, "|h |\n|--|\n|é€|");
}

#[test]
fn missing_value_is_all_spaces() {
    let t = vec![record(&[("a", "1")]), record(&[("b", "22")])];
    let md = mk_table_all_cols(&t);
    assert_eq!(md, "|a|b |\n|-|--|\n|1|  |\n| |22|");
}

#[test]
fn heading_in_no_record_keeps_own_width() {
    let t = vec![record(&[("a", "1")])];
    let md = mk_table(&[s("a"), s("zzz")], &t);
    assert_eq!(md, "|a|zzz|\n|-|---|\n|1|   |");
}

#[test]
fn empty_table_renders_header_and_rule() {
    let t: Vec<Record> = vec![];
    assert_eq!(mk_table(&[s("ab"), s("c")], &t), "|ab|c|\n|--|-|");
    assert_eq!(mk_table_all_cols(&t), "|\n|");
}

#[test]
fn malformed_yaml_is_a_decode_error() {
    assert!(matches!(mk_md_table_from_yaml("- a: [1, 2]\n"), Err(TableError::Decode(_))));
    assert!(matches!(mk_md_table_from_yaml("key: [unclosed"), Err(TableError::Decode(_))));
    assert!(matches!(load_yaml("a: b\n"), Err(TableError::Decode(_))));
}

#[test]
fn deeply_nested_yaml_is_a_decode_error() {
    let deep = "- ".repeat(100_000) + "x\n";
    assert!(matches!(mk_md_table_from_yaml(&deep), Err(TableError::Decode(_))));
    let indented: String = (0..2_000).map(|k| " ".repeat(k) + "a:\n").collect();
    assert!(matches!(load_yaml(&indented), Err(TableError::Decode(_))));
}

#[test]
fn long_runs_of_indicators_in_values_load() {
    let colons = ":".repeat(129);
    let dashes = "-".repeat(300);
    let yml = format!("- a: '{}'\n  b: x {}\n", colons, "- ".repeat(200));
    let t = load_yaml(&yml).unwrap();
    assert_eq!(t.len(), 1);
    assert_eq!(t[0].entries[0], (s("a"), colons));
    assert_eq!(t[0].entries[1].0, s("b"));
    let yml = format!("- a: {}\n", dashes);
    let t = load_yaml(&yml).unwrap();
    assert_eq!(t[0].entries, vec![(s("a"), dashes)]);
    let indented: String = format!("{}- a: b\n{}  c: d\n", " ".repeat(500), " ".repeat(500));
    let t = load_yaml(&indented).unwrap();
    assert_eq!(t[0].entries, vec![(s("a"), s("b")), (s("c"), s("d"))]);
}

#[test]
fn explicit_headings_omit_other_columns() {
    let headings = vec![s("data1"), s("data2"), s("col4")];
    let md = mk_md_table_from_yaml_with_headings(&headings, YML_DATA).unwrap();
    for line in md.lines() {
        let cells: Vec<usize> = line.split('|').map(|c| c.chars().count()).collect();
        assert_eq!(cells, vec![0, 9, 20, 7, 0]);
        assert!(!line.contains("col3") && !line.contains("190x") && !line.contains("100"));
    }
    let third: Vec<&str> = md.lines().nth(3).unwrap().split('|').collect();
    assert_eq!(third[3], "       ");
}

#[test]
fn load_keeps_record_and_key_order() {
    let t = load_yaml("- z: 1\n  a: 2\n- m: x\n").unwrap();
    assert_eq!(t.len(), 2);
    assert_eq!(t[0].entries, vec![(s("z"), s("1")), (s("a"), s("2"))]);
    assert_eq!(t[1].entries, vec![(s("m"), s("x"))]);
}

#[test]
fn collect_drops_failures_and_upserts_in_place() {
    let out = collect_tables(vec![
        named("one", vec![record(&[("a", "1")])]),
        failed("bad"),
        named("two", vec![record(&[("b", "2")])]),
        named("one", vec![record(&[("c", "3")])]),
    ]);
    let names: Vec<&str> = out.iter().map(|n| n.name.as_str()).collect();
    assert_eq!(names, vec!["one", "two"]);
    assert_eq!(out[0].table[0].entries, vec![(s("c"), s("3"))]);
}

#[test]
fn single_survivor_is_written_bare() {
    let table = vec![record(&[("k", "v")]), record(&[("k", "w")])];
    let alone = mk_yaml_from_table_result(vec![named("only", table)]).unwrap();
    let table = vec![record(&[("k", "v")]), record(&[("k", "w")])];
    let among_failures =
        mk_yaml_from_table_result(vec![failed("x"), named("only", table), failed("y")]).unwrap();
    assert_eq!(alone, among_failures);
    assert!(!alone.contains("only"));
    let back = load_yaml(&alone).unwrap();
    assert_eq!(back.len(), 2);
    assert_eq!(back[1].entries, vec![(s("k"), s("w"))]);
}

#[test]
fn several_survivors_are_written_as_mapping_in_order() {
    let text = mk_yaml_from_table_result(vec![
        named("second", vec![record(&[("a", "x")])]),
        failed("broken"),
        named("first", vec![record(&[("b", "y")])]),
    ])
    .unwrap();
    let p2 = text.find("second").unwrap();
    let p1 = text.find("first").unwrap();
    assert!(p2 < p1);
    assert!(!text.contains("broken"));
}

#[test]
fn no_survivor_is_an_empty_mapping() {
    let text = mk_yaml_from_table_result(vec![failed("a")]).unwrap();
    let empty = mk_yaml_from_table_result(vec![]).unwrap();
    assert_eq!(text, empty);
    assert!(text.contains("{}"));
}
