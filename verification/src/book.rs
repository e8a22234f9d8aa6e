//! The trusted boundary around the `umya_spreadsheet` workbook container.
//! A workbook is modelled by the ordered sequence of its sheet names; the
//! sheet payloads are opaque blobs that are only ever cloned whole.

use vstd::prelude::*;
use umya_spreadsheet::Workbook;
use umya_spreadsheet::Worksheet;
use umya_spreadsheet::XlsxError;

verus! {

#[verifier::external_type_specification]
#[verifier::external_body]
pub struct ExWorkbook(Workbook);

#[verifier::external_type_specification]
#[verifier::external_body]
pub struct ExWorksheet(Worksheet);

#[verifier::external_type_specification]
#[verifier::external_body]
pub struct ExXlsxError(XlsxError);

/// The ordered sequence of sheet names a workbook holds.
pub uninterp spec fn book_names(book: Workbook) -> Seq<Seq<char>>;

/// The name of a worksheet.
pub uninterp spec fn ws_name(ws: Worksheet) -> Seq<char>;

/// The sheets that remain once every sheet named `name` is dropped.
pub open spec fn names_without(names: Seq<Seq<char>>, name: Seq<char>) -> Seq<Seq<char>> {
    names.filter(|n: Seq<char>| n != name)
}

/// Relies on `umya_spreadsheet::new_file_empty_worksheet`: a fresh workbook
/// shell that holds no worksheets.
#[verifier::external_body]
pub(crate) fn new_empty_book() -> (r: Workbook)
    ensures
        book_names(r) == Seq::<Seq<char>>::empty(),
{
    umya_spreadsheet::new_file_empty_worksheet()
}

/// Relies on `Workbook::sheet_collection_no_check`: the sheet list's length.
#[verifier::external_body]
pub(crate) fn sheet_count(book: &Workbook) -> (n: usize)
    ensures
        n == book_names(*book).len(),
{
    book.sheet_collection_no_check().len()
}

/// Relies on `Workbook::sheet_collection_no_check` and `Worksheet::name`:
/// the name of the sheet at position `i`.
#[verifier::external_body]
pub(crate) fn sheet_name_at(book: &Workbook, i: usize) -> (r: String)
    requires
        i < book_names(*book).len(),
    ensures
        r@ == book_names(*book)[i as int],
{
    book.sheet_collection_no_check()[i].name().to_string()
}

/// Relies on `Workbook::sheet_collection_no_check`: the sheet at position `i`.
#[verifier::external_body]
pub(crate) fn sheet_at<'a>(book: &'a Workbook, i: usize) -> (r: &'a Worksheet)
    requires
        i < book_names(*book).len(),
    ensures
        ws_name(*r) == book_names(*book)[i as int],
{
    &book.sheet_collection_no_check()[i]
}

/// Relies on `Worksheet`'s derived `Clone`: the copy carries the same name.
#[verifier::external_body]
pub(crate) fn clone_sheet(ws: &Worksheet) -> (r: Worksheet)
    ensures
        ws_name(r) == ws_name(*ws),
{
    ws.clone()
}

/// Relies on `Worksheet::set_name`: afterwards the sheet bears `name`.
#[verifier::external_body]
pub(crate) fn set_sheet_name(ws: &mut Worksheet, name: &str)
    ensures
        ws_name(*final(ws)) == name@,
{
    ws.set_name(name);
}

/// Relies on `Workbook::add_sheet`: the sheet is appended to the end of the
/// collection, and the call fails, leaving the workbook as it was, exactly
/// when a sheet of the same name is already present.
#[verifier::external_body]
pub(crate) fn add_sheet_to(book: &mut Workbook, ws: Worksheet) -> (r: Result<(), XlsxError>)
    ensures
        r is Ok <==> !book_names(*old(book)).contains(ws_name(ws)),
        r is Ok ==> book_names(*final(book)) == book_names(*old(book)).push(ws_name(ws)),
        r is Err ==> book_names(*final(book)) == book_names(*old(book)),
{
    match book.add_sheet(ws) {
        Ok(_) => Ok(()),
        Err(e) => Err(e),
    }
}

/// Relies on `Workbook::remove_sheet_by_name`: every sheet bearing the name
/// is dropped, the others keep their order, and the call fails, changing
/// nothing, exactly when no sheet bears the name.
#[verifier::external_body]
pub(crate) fn remove_sheets_named(book: &mut Workbook, name: &str) -> (r: Result<(), XlsxError>)
    ensures
        r is Ok <==> book_names(*old(book)).contains(name@),
        book_names(*final(book)) == names_without(book_names(*old(book)), name@),
        r is Err ==> book_names(*final(book)) == book_names(*old(book)),
{
    book.remove_sheet_by_name(name)
}

} // verus!
