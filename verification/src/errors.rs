//! Failure conditions of the extraction and merge operations.  Every
//! variant carries a distinct user-facing message; no partial output is
//! ever produced once one of these is raised.

use vstd::prelude::*;

verus! {

#[derive(Clone, Copy, Debug, PartialEq, Eq, Structural)]
pub enum SheetError {
    /// An explicit selection held zero sheet names.
    EmptySelection,
    /// No sheet name contained the requested keyword.
    NoKeywordMatch,
    /// None of the wanted names matched an existing sheet.
    NoMatchingSheets,
    /// A merge needs at least two source workbooks.
    TooFewFiles,
    /// All merge sources together held zero sheets.
    NothingToMerge,
    /// A generated sheet name was already present in the destination
    /// workbook, so the workbook library refused to add the sheet.
    NameCollision,
}

impl SheetError {
    pub open spec fn spec_message(self) -> Seq<char> {
        match self {
            SheetError::EmptySelection => "シートが選択されていません"@,
            SheetError::NoKeywordMatch => "該当するシートがありませんでした"@,
            SheetError::NoMatchingSheets => "対象のシートが見つかりませんでした"@,
            SheetError::TooFewFiles => "2つ以上のファイルを選択してください"@,
            SheetError::NothingToMerge => "マージ対象のシートが見つかりませんでした"@,
            SheetError::NameCollision => "Name Duplicate"@,
        }
    }

    /// The user-facing message for this failure.
    pub fn message(&self) -> (r: String)
        ensures
            r@ == self.spec_message(),
    {
        match self {
            SheetError::EmptySelection => "シートが選択されていません".to_owned(),
            SheetError::NoKeywordMatch => "該当するシートがありませんでした".to_owned(),
            SheetError::NoMatchingSheets => "対象のシートが見つかりませんでした".to_owned(),
            SheetError::TooFewFiles => "2つ以上のファイルを選択してください".to_owned(),
            SheetError::NothingToMerge => "マージ対象のシートが見つかりませんでした".to_owned(),
            SheetError::NameCollision => "Name Duplicate".to_owned(),
        }
    }
}

} // verus!
