use tablr::cell::{cell_less, contains_text, int_pattern, IntPattern};
use tablr::relation::combine;
use tablr::render::cell_text;
use tablr::{Cell, FilterType, Kind, Relation, SortSpec, TableError, TableState};

fn text(s: &str) -> Cell {
    Cell::Text(s.to_string())
}

fn names(ns: &[&str]) -> Vec<String> {
    ns.iter().map(|s| s.to_string()).collect()
}

/// Three columns, five rows: id, status, score.
fn tickets() -> Relation {
    let statuses = ["open", "closed", "open", "open", "closed"];
    let scores = [7, 3, 7, 1, 9];
    let rows = (0..5)
        .map(|i| vec![Cell::Int(100 + i as i64), text(statuses[i]), Cell::Int(scores[i])])
        .collect();
    Relation {
        names: names(&["id", "status", "score"]),
        kinds: vec![Kind::Int, Kind::Text, Kind::Int],
        rows,
    }
}

fn loaded(rel: Relation) -> TableState {
    let mut t = TableState::new();
    t.load(Ok(vec![rel])).unwrap();
    t
}

fn shown(t: &TableState) -> Vec<usize> {
    (0..t.row_count()).map(|r| t.source_row(r)).collect()
}

fn column_texts(t: &TableState, column: usize) -> Vec<String> {
    (0..t.row_count()).map(|r| cell_text(t.cell_at(r, column))).collect()
}

#[test]
fn status_filter_sort_and_clear() {
    let mut t = loaded(tickets());
    assert_eq!(t.column_count(), 3);
    assert_eq!(t.row_count(), 5);
    assert!(t.apply_filter(1, FilterType::Equals, "open".to_string()).is_ok());
    assert_eq!(t.row_count(), 3);
    assert_eq!(shown(&t), vec![0, 2, 3]);
    assert_eq!(column_texts(&t, 1), vec!["open", "open", "open"]);
    t.sort_by(1);
    assert_eq!(shown(&t), vec![0, 2, 3]);
    assert_eq!(t.sort_spec(), Some(SortSpec { column: 1, descending: false }));
    t.clear_filter();
    assert_eq!(t.row_count(), 5);
    // "closed" sorts before "open"; ties keep row order
    assert_eq!(shown(&t), vec![1, 4, 0, 2, 3]);
    assert!(t.error().is_none());
}

#[test]
fn load_replaces_never_merges() {
    let other = Relation {
        names: names(&["x"]),
        kinds: vec![Kind::Bool],
        rows: vec![vec![Cell::Bool(true)], vec![Cell::Null]],
    };
    let mut t = loaded(tickets());
    t.sort_by(2);
    t.apply_filter(1, FilterType::Equals, "open".to_string()).unwrap();
    t.load(Ok(vec![other])).unwrap();
    assert_eq!(t.column_count(), 1);
    assert_eq!(t.column_name(0), "x");
    assert_eq!(shown(&t), vec![0, 1]);
    assert_eq!(t.sort_spec(), None);
    assert!(t.filter_spec().is_none());
}

#[test]
fn load_same_sources_twice_is_identical() {
    let mut t = TableState::new();
    t.load(Ok(vec![tickets(), tickets()])).unwrap();
    let first = shown(&t);
    let first_ids = column_texts(&t, 0);
    t.load(Ok(vec![tickets(), tickets()])).unwrap();
    assert_eq!(shown(&t), first);
    assert_eq!(column_texts(&t, 0), first_ids);
    assert_eq!(t.row_count(), 10);
}

#[test]
fn filter_is_relative_to_loaded_relation() {
    let mut t = loaded(tickets());
    t.apply_filter(1, FilterType::Equals, "closed".to_string()).unwrap();
    assert_eq!(shown(&t), vec![1, 4]);
    t.apply_filter(1, FilterType::Contains, "pe".to_string()).unwrap();
    assert_eq!(shown(&t), vec![0, 2, 3]);
    t.apply_filter(2, FilterType::Equals, "7".to_string()).unwrap();
    assert_eq!(shown(&t), vec![0, 2]);
}

#[test]
fn clear_filter_round_trip_keeps_sort() {
    let mut t = loaded(tickets());
    t.sort_by(2);
    t.sort_by(2);
    let before = shown(&t);
    assert_eq!(before, vec![4, 0, 2, 1, 3]);
    t.apply_filter(1, FilterType::Equals, "x".to_string()).unwrap();
    assert_eq!(t.row_count(), 0);
    t.clear_filter();
    assert_eq!(shown(&t), before);
    assert_eq!(t.sort_spec(), Some(SortSpec { column: 2, descending: true }));
}

#[test]
fn sort_is_stable_both_ways() {
    let mut t = loaded(tickets());
    t.sort_by(2);
    assert_eq!(shown(&t), vec![3, 1, 0, 2, 4]);
    t.sort_by(2);
    assert_eq!(shown(&t), vec![4, 0, 2, 1, 3]);
    t.sort_by(1);
    assert_eq!(shown(&t), vec![1, 4, 0, 2, 3]);
    t.sort_by(1);
    assert_eq!(shown(&t), vec![0, 2, 3, 1, 4]);
}

#[test]
fn sort_toggle_twice_returns_to_ascending() {
    let mut t = loaded(tickets());
    t.sort_by(2);
    let ascending = shown(&t);
    t.sort_by(2);
    assert_eq!(t.sort_spec(), Some(SortSpec { column: 2, descending: true }));
    t.sort_by(2);
    assert_eq!(t.sort_spec(), Some(SortSpec { column: 2, descending: false }));
    assert_eq!(shown(&t), ascending);
}

#[test]
fn contains_on_numeric_column_fails_open() {
    let mut t = loaded(tickets());
    t.sort_by(2);
    let sorted_all = shown(&t);
    let r = t.apply_filter(2, FilterType::Contains, "3".to_string());
    assert!(matches!(r, Err(TableError::Filter)));
    assert!(matches!(t.error(), Some(TableError::Filter)));
    assert_eq!(shown(&t), sorted_all);
    t.clear_filter();
    assert!(t.error().is_none());
}

#[test]
fn empty_pattern_shows_every_row() {
    let mut t = loaded(tickets());
    t.apply_filter(1, FilterType::Equals, "open".to_string()).unwrap();
    t.apply_filter(1, FilterType::Equals, String::new()).unwrap();
    assert_eq!(shown(&t), vec![0, 1, 2, 3, 4]);
}

#[test]
fn empty_selection_changes_nothing() {
    let mut t = loaded(tickets());
    t.sort_by(0);
    let r = t.load(Ok(Vec::new()));
    assert!(matches!(r, Err(TableError::NoSources)));
    assert_eq!(t.row_count(), 5);
    assert_eq!(t.sort_spec(), Some(SortSpec { column: 0, descending: false }));
    assert!(t.error().is_none());
}

#[test]
fn read_failure_clears_relation() {
    let mut t = loaded(tickets());
    let r = t.load(Err("cannot open a.parquet".to_string()));
    assert!(matches!(r, Err(TableError::Read(ref m)) if m == "cannot open a.parquet"));
    assert!(!t.is_loaded());
    assert_eq!(t.row_count(), 0);
    assert_eq!(t.column_count(), 0);
    assert_eq!(t.error().as_ref().unwrap().message(), "cannot open a.parquet");
}

#[test]
fn schema_mismatch_fails_load() {
    let mut other = tickets();
    other.names[2] = "points".to_string();
    let mut t = loaded(tickets());
    let r = t.load(Ok(vec![tickets(), other]));
    assert!(matches!(r, Err(TableError::Schema)));
    assert!(!t.is_loaded());
    assert!(matches!(t.error(), Some(TableError::Schema)));
}

#[test]
fn ragged_rows_fail_load() {
    let mut bad = tickets();
    bad.rows[3].pop();
    assert!(matches!(combine(vec![bad]), Err(TableError::Schema)));
    let mut wrong_kind = tickets();
    wrong_kind.rows[1][0] = text("101");
    assert!(matches!(combine(vec![wrong_kind]), Err(TableError::Schema)));
}

#[test]
fn combine_concatenates_in_order() {
    let mut second = tickets();
    second.rows.truncate(2);
    let all = combine(vec![tickets(), second]).unwrap();
    assert_eq!(all.rows.len(), 7);
    assert!(matches!(all.rows[5][0], Cell::Int(100)));
    assert!(matches!(combine(Vec::new()), Err(TableError::NoSources)));
}

#[test]
fn equals_on_integers_reads_the_pattern_as_a_number() {
    let mut t = loaded(tickets());
    t.apply_filter(0, FilterType::Equals, "0102".to_string()).unwrap();
    assert_eq!(shown(&t), vec![2]);
    t.apply_filter(0, FilterType::Equals, "99999999999999999999".to_string()).unwrap();
    assert_eq!(t.row_count(), 0);
    let r = t.apply_filter(0, FilterType::Equals, "1o2".to_string());
    assert!(matches!(r, Err(TableError::Filter)));
    assert_eq!(t.row_count(), 5);
}

#[test]
fn equals_on_booleans_and_nulls() {
    let rel = Relation {
        names: names(&["flag"]),
        kinds: vec![Kind::Bool],
        rows: vec![vec![Cell::Bool(true)], vec![Cell::Null], vec![Cell::Bool(false)], vec![Cell::Bool(true)]],
    };
    let mut t = loaded(rel);
    t.apply_filter(0, FilterType::Equals, "true".to_string()).unwrap();
    assert_eq!(shown(&t), vec![0, 3]);
    t.apply_filter(0, FilterType::Equals, "false".to_string()).unwrap();
    assert_eq!(shown(&t), vec![2]);
    assert!(t.apply_filter(0, FilterType::Equals, "yes".to_string()).is_err());
    assert_eq!(shown(&t), vec![0, 1, 2, 3]);
    t.clear_filter();
    t.sort_by(0);
    assert_eq!(shown(&t), vec![1, 2, 0, 3]);
    t.sort_by(0);
    assert_eq!(shown(&t), vec![0, 3, 2, 1]);
}

#[test]
fn contains_is_case_sensitive() {
    let rel = Relation {
        names: names(&["word"]),
        kinds: vec![Kind::Text],
        rows: vec![vec![text("Open")], vec![text("reopened")], vec![Cell::Null], vec![text("pen")]],
    };
    let mut t = loaded(rel);
    t.apply_filter(0, FilterType::Contains, "pen".to_string()).unwrap();
    assert_eq!(shown(&t), vec![0, 1, 3]);
    t.apply_filter(0, FilterType::Contains, "Op".to_string()).unwrap();
    assert_eq!(shown(&t), vec![0]);
}

#[test]
fn time_and_real_columns_sort_by_value() {
    let rel = Relation {
        names: names(&["at", "x"]),
        kinds: vec![Kind::Time, Kind::Real],
        rows: vec![
            vec![Cell::Time(30), Cell::Real(5, "2.5".to_string())],
            vec![Cell::Time(-4), Cell::Real(-1, "-0.5".to_string())],
            vec![Cell::Time(12), Cell::Real(5, "2.5".to_string())],
        ],
    };
    let mut t = loaded(rel);
    t.sort_by(0);
    assert_eq!(shown(&t), vec![1, 2, 0]);
    t.sort_by(1);
    assert_eq!(shown(&t), vec![1, 0, 2]);
    assert_eq!(column_texts(&t, 1), vec!["-0.5", "2.5", "2.5"]);
    assert!(t.apply_filter(1, FilterType::Equals, "2.5".to_string()).is_err());
    assert!(t.apply_filter(0, FilterType::Equals, "12".to_string()).is_err());
}

#[test]
fn cell_order() {
    assert!(cell_less(&Cell::Null, &Cell::Int(-5)));
    assert!(!cell_less(&Cell::Int(-5), &Cell::Null));
    assert!(cell_less(&text("ab"), &text("abc")));
    assert!(cell_less(&text("B"), &text("a")));
    assert!(!cell_less(&text("same"), &text("same")));
    assert!(cell_less(&Cell::Bool(false), &Cell::Bool(true)));
}

#[test]
fn substring_search() {
    assert!(contains_text(&"closed".to_string(), &"lose".to_string()));
    assert!(contains_text(&"closed".to_string(), &"".to_string()));
    assert!(!contains_text(&"clo".to_string(), &"closed".to_string()));
    assert!(!contains_text(&"closed".to_string(), &"Lose".to_string()));
}

#[test]
fn integer_patterns() {
    assert!(matches!(int_pattern(&"-9223372036854775808".to_string()), IntPattern::Value(i64::MIN)));
    assert!(matches!(int_pattern(&"9223372036854775807".to_string()), IntPattern::Value(i64::MAX)));
    assert!(matches!(int_pattern(&"9223372036854775808".to_string()), IntPattern::OutOfRange));
    assert!(matches!(int_pattern(&"-".to_string()), IntPattern::NotANumber));
    assert!(matches!(int_pattern(&"".to_string()), IntPattern::NotANumber));
    assert!(matches!(int_pattern(&"+3".to_string()), IntPattern::NotANumber));
    assert!(matches!(int_pattern(&"-007".to_string()), IntPattern::Value(-7)));
}

#[test]
fn cell_texts() {
    assert_eq!(cell_text(&Cell::Null), "null");
    assert_eq!(cell_text(&Cell::Bool(true)), "true");
    assert_eq!(cell_text(&Cell::Bool(false)), "false");
    assert_eq!(cell_text(&Cell::Int(0)), "0");
    assert_eq!(cell_text(&Cell::Int(-1203)), "-1203");
    assert_eq!(cell_text(&Cell::Int(i64::MIN)), "-9223372036854775808");
    assert_eq!(cell_text(&Cell::Time(86400)), "86400");
    assert_eq!(cell_text(&Cell::Real(3, "1.5".to_string())), "1.5");
    assert_eq!(cell_text(&text("open")), "open");
}

#[test]
fn filter_type_labels() {
    assert_eq!(FilterType::Equals.label(), "Equals");
    assert_eq!(FilterType::Contains.label(), "Contains");
}

#[test]
fn error_messages() {
    assert_eq!(TableError::Read("bad file".to_string()).message(), "bad file");
    assert!(TableError::Filter.message().starts_with("Filter error"));
    assert!(!TableError::Schema.message().is_empty());
    assert!(!TableError::NoSources.message().is_empty());
}
