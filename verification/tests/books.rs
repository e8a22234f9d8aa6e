use sheetkit::errors::SheetError;
use sheetkit::filter::extract_by_keyword_sheets;
use sheetkit::filter::extract_by_selection_sheets;
use sheetkit::filter::filter_sheets;
use sheetkit::filter::names_distinct;
use sheetkit::filter::sheet_names;
use sheetkit::merge::merge_sheets;
use umya_spreadsheet::Workbook;

fn book_with(names: &[&str]) -> Workbook {
    let mut book = umya_spreadsheet::new_file_empty_worksheet();
    for n in names {
        book.new_sheet(*n).unwrap();
    }
    book
}

#[test]
fn sheet_names_lists_names_in_order() {
    let book = book_with(&["One", "Two", "Three"]);
    assert_eq!(sheet_names(&book), vec!["One", "Two", "Three"]);
    let empty = umya_spreadsheet::new_file_empty_worksheet();
    assert_eq!(sheet_names(&empty), Vec::<String>::new());
}

#[test]
fn names_distinct_detects_duplicates() {
    assert!(names_distinct(&vec!["a".to_string(), "b".to_string()]));
    assert!(!names_distinct(&vec!["a".to_string(), "a".to_string()]));
}

#[test]
fn filter_keeps_exactly_the_wanted_sheets() {
    let mut book = book_with(&["Sales", "Summary", "Notes"]);
    let wanted = vec!["Notes".to_string(), "Missing".to_string()];
    let kept = filter_sheets(&mut book, &wanted).unwrap();
    assert_eq!(kept, 1);
    assert_eq!(sheet_names(&book), vec!["Notes"]);
}

#[test]
fn filter_keeps_sheet_content() {
    let mut book = book_with(&["Keep", "Drop"]);
    book.sheet_by_name_mut("Keep")
        .unwrap()
        .cell_value_mut("A1")
        .set_value("hello");
    filter_sheets(&mut book, &vec!["Keep".to_string()]).unwrap();
    let v = book.sheet_by_name("Keep").unwrap().cell_value("A1").value();
    assert_eq!(v, "hello");
}

#[test]
fn filter_without_match_changes_nothing() {
    let mut book = book_with(&["Sales", "Summary"]);
    let before = sheet_names(&book);
    let r = filter_sheets(&mut book, &vec!["Zzz".to_string()]);
    assert_eq!(r, Err(SheetError::NoMatchingSheets));
    assert_eq!(sheet_names(&book), before);
}

#[test]
fn extract_by_keyword_keeps_matching_sheets() {
    let mut book = book_with(&["2023_Jan", "2023_Feb", "Notes"]);
    let count = extract_by_keyword_sheets(&mut book, "2023").unwrap();
    assert_eq!(count, 2);
    assert_eq!(sheet_names(&book), vec!["2023_Jan", "2023_Feb"]);
}

#[test]
fn extract_by_keyword_without_match_fails_untouched() {
    let mut book = book_with(&["Sales", "Summary"]);
    let r = extract_by_keyword_sheets(&mut book, "2023");
    assert_eq!(r, Err(SheetError::NoKeywordMatch));
    assert_eq!(sheet_names(&book), vec!["Sales", "Summary"]);
}

#[test]
fn extract_by_selection_rejects_empty_selection() {
    let mut book = book_with(&["Sales"]);
    let r = extract_by_selection_sheets(&mut book, &Vec::new());
    assert_eq!(r, Err(SheetError::EmptySelection));
    assert_eq!(sheet_names(&book), vec!["Sales"]);
}

#[test]
fn extract_by_selection_keeps_selected_sheets() {
    let mut book = book_with(&["Sales", "Summary", "Notes"]);
    let sel = vec!["Summary".to_string(), "Sales".to_string()];
    let count = extract_by_selection_sheets(&mut book, &sel).unwrap();
    assert_eq!(count, 2);
    assert_eq!(sheet_names(&book), vec!["Sales", "Summary"]);
}

#[test]
fn merge_needs_two_sources() {
    let sources = vec![("a.xlsx".to_string(), book_with(&["S"]))];
    assert!(matches!(merge_sheets(&sources), Err(SheetError::TooFewFiles)));
}

#[test]
fn merge_of_sheetless_sources_fails() {
    let sources = vec![
        ("a.xlsx".to_string(), umya_spreadsheet::new_file_empty_worksheet()),
        ("b.xlsx".to_string(), umya_spreadsheet::new_file_empty_worksheet()),
    ];
    assert!(matches!(merge_sheets(&sources), Err(SheetError::NothingToMerge)));
}

#[test]
fn merge_namespaces_sheets_by_file_stem() {
    let sources = vec![
        ("A.xlsx".to_string(), book_with(&["Sales", "Summary"])),
        ("B.xlsx".to_string(), book_with(&["Sales", "Notes"])),
    ];
    let (out, total) = merge_sheets(&sources).unwrap();
    assert_eq!(total, 4);
    assert_eq!(
        sheet_names(&out),
        vec!["A_Sales", "A_Summary", "B_Sales", "B_Notes"]
    );
}

#[test]
fn merge_suffixes_colliding_candidates() {
    let sources = vec![
        ("x/data.xlsx".to_string(), book_with(&["S"])),
        ("y/data.xlsx".to_string(), book_with(&["S"])),
    ];
    let (out, total) = merge_sheets(&sources).unwrap();
    assert_eq!(total, 2);
    assert_eq!(sheet_names(&out), vec!["data_S", "data_S_1"]);
}

#[test]
fn merge_reports_an_unresolvable_collision() {
    // the suffixed second candidate later arrives verbatim as a fresh base
    let sources = vec![
        ("A.xlsx".to_string(), book_with(&["X"])),
        ("d/A.xlsx".to_string(), book_with(&["X_1"])),
        ("e/A.xlsx".to_string(), book_with(&["X"])),
    ];
    assert!(matches!(merge_sheets(&sources), Err(SheetError::NameCollision)));
}

#[test]
fn merge_copies_sheet_content() {
    let mut a = book_with(&["S"]);
    a.sheet_by_name_mut("S")
        .unwrap()
        .cell_value_mut("B2")
        .set_value("42");
    let sources = vec![
        ("a.xlsx".to_string(), a),
        ("b.xlsx".to_string(), book_with(&["S"])),
    ];
    let (out, _) = merge_sheets(&sources).unwrap();
    let v = out.sheet_by_name("a_S").unwrap().cell_value("B2").value();
    assert_eq!(v, "42");
}
