use sheetkit::chars::char_len;
use sheetkit::chars::has_substring;
use sheetkit::chars::take_chars;
use sheetkit::digits::u64_to_dec;
use sheetkit::errors::SheetError;
use sheetkit::merge::get_base_filename;
use sheetkit::normalize::normalize_sheet_name;
use sheetkit::normalize::unique_sheet_name;
use sheetkit::normalize::NameRegistry;

#[test]
fn char_len_counts_characters_not_bytes() {
    assert_eq!(char_len("abc"), 3);
    assert_eq!(char_len(""), 0);
    assert_eq!(char_len("日本語"), 3);
}

#[test]
fn take_chars_takes_a_character_prefix() {
    assert_eq!(take_chars("hello", 2), "he");
    assert_eq!(take_chars("hi", 10), "hi");
    assert_eq!(take_chars("日本語です", 2), "日本");
    assert_eq!(take_chars("hello", 0), "");
}

#[test]
fn has_substring_is_exact_and_case_sensitive() {
    assert!(has_substring("2023_Jan", "2023"));
    assert!(has_substring("abc", ""));
    assert!(!has_substring("Sales", "sales"));
    assert!(!has_substring("ab", "abc"));
}

#[test]
fn u64_to_dec_renders_decimal() {
    assert_eq!(u64_to_dec(0), "0");
    assert_eq!(u64_to_dec(7), "7");
    assert_eq!(u64_to_dec(12345), "12345");
    assert_eq!(u64_to_dec(u64::MAX), "18446744073709551615");
}

#[test]
fn normalize_keeps_short_names() {
    assert_eq!(normalize_sheet_name("Sheet1"), "Sheet1");
    let exactly31 = "C".repeat(31);
    assert_eq!(normalize_sheet_name(&exactly31), exactly31);
}

#[test]
fn normalize_truncates_long_names() {
    let long = "A".repeat(50);
    let n = normalize_sheet_name(&long);
    assert_eq!(char_len(&n), 31);
    assert!(n.ends_with("..."));
    assert_eq!(n, format!("{}...", "A".repeat(28)));
}

#[test]
fn first_use_returns_base_unchanged() {
    let mut reg = NameRegistry::new();
    assert_eq!(unique_sheet_name("Sheet1", &mut reg), "Sheet1");
}

#[test]
fn repeated_use_appends_counter() {
    let mut reg = NameRegistry::new();
    assert_eq!(unique_sheet_name("Sheet1", &mut reg), "Sheet1");
    assert_eq!(unique_sheet_name("Sheet1", &mut reg), "Sheet1_1");
    assert_eq!(unique_sheet_name("Sheet1", &mut reg), "Sheet1_2");
}

#[test]
fn distinct_bases_do_not_interfere() {
    let mut reg = NameRegistry::new();
    assert_eq!(unique_sheet_name("Alpha", &mut reg), "Alpha");
    assert_eq!(unique_sheet_name("Beta", &mut reg), "Beta");
    assert_eq!(unique_sheet_name("Alpha", &mut reg), "Alpha_1");
    assert_eq!(unique_sheet_name("Beta", &mut reg), "Beta_1");
}

#[test]
fn suffix_shortens_a_full_length_base() {
    let mut reg = NameRegistry::new();
    let base = "B".repeat(31);
    assert_eq!(unique_sheet_name(&base, &mut reg), base);
    let second = unique_sheet_name(&base, &mut reg);
    assert_eq!(second, format!("{}_1", "B".repeat(29)));
    assert_eq!(char_len(&second), 31);
}

#[test]
fn long_names_sharing_a_prefix_collide_by_design() {
    // two different long names truncate to the same 28-character prefix,
    // so the second is treated as a reuse and gets a counter suffix
    let mut reg = NameRegistry::new();
    let first = format!("{}XYZ", "P".repeat(37));
    let second = format!("{}QRS", "P".repeat(37));
    let n1 = unique_sheet_name(&first, &mut reg);
    let n2 = unique_sheet_name(&second, &mut reg);
    assert_eq!(n1, format!("{}...", "P".repeat(28)));
    assert_eq!(n2, format!("{}._1", "P".repeat(28)));
    assert_eq!(char_len(&n2), 31);
}

#[test]
fn full_length_base_ending_in_counter_repeats_itself() {
    // the one input on which suffixing falls back onto the base itself: a
    // 31-character base whose tail already reads like its next suffix
    let mut reg = NameRegistry::new();
    let base = format!("{}_1", "B".repeat(29));
    assert_eq!(unique_sheet_name(&base, &mut reg), base);
    assert_eq!(unique_sheet_name(&base, &mut reg), base);
}

#[test]
fn base_filename_strips_directory_and_extension() {
    assert_eq!(get_base_filename("folder/report.xlsx"), "report");
    assert_eq!(get_base_filename("book.xlsx"), "book");
    assert_eq!(get_base_filename("archive.tar.gz"), "archive.tar");
}

#[test]
fn base_filename_falls_back_to_placeholder() {
    assert_eq!(get_base_filename(".."), "workbook");
    assert_eq!(get_base_filename(""), "workbook");
}

#[test]
fn error_messages_are_distinct() {
    let all = [
        SheetError::EmptySelection,
        SheetError::NoKeywordMatch,
        SheetError::NoMatchingSheets,
        SheetError::TooFewFiles,
        SheetError::NothingToMerge,
        SheetError::NameCollision,
    ];
    for a in 0..all.len() {
        for b in 0..all.len() {
            if a != b {
                assert_ne!(all[a].message(), all[b].message());
            }
        }
    }
    assert_eq!(
        SheetError::TooFewFiles.message(),
        "2つ以上のファイルを選択してください"
    );
    assert_eq!(
        SheetError::NoMatchingSheets.message(),
        "対象のシートが見つかりませんでした"
    );
}
