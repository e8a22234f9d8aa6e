//! The merge orchestrator: the sheets of several source workbooks are
//! cloned into one fresh destination workbook, each under a namespaced
//! candidate name (file stem, underscore, original sheet name) made unique
//! by one registry shared across the whole merge.

use vstd::prelude::*;
use vstd::string::StringExecFns;
use umya_spreadsheet::Workbook;
use crate::book::add_sheet_to;
use crate::book::book_names;
use crate::book::clone_sheet;
use crate::book::new_empty_book;
use crate::book::set_sheet_name;
use crate::book::sheet_at;
use crate::book::sheet_count;
use crate::errors::SheetError;
use crate::filter::names_of;
use crate::filter::sheet_names;
use crate::normalize::NameRegistry;
use crate::normalize::spec_register;
use crate::normalize::spec_unique_name;
use crate::normalize::unique_sheet_name;

verus! {

/// What `std::path::Path::file_stem` (read back as UTF-8) yields for a
/// path: its file name without the final extension, when there is one.
pub uninterp spec fn path_stem(path: Seq<char>) -> Option<Seq<char>>;

/// Relies on `std::path::Path::file_stem`: the file name of the path
/// without its final extension, a pure function of the path string.
#[verifier::external_body]
fn file_stem_of(path: &str) -> (r: Option<String>)
    ensures
        (match r {
            Some(s) => path_stem(path@) == Some(s@),
            None => path_stem(path@) is None,
        }),
{
    match std::path::Path::new(path).file_stem() {
        Some(stem) => match stem.to_str() {
            Some(s) => Some(s.to_string()),
            None => None,
        },
        None => None,
    }
}

/// The merge namespace prefix a source path contributes: its file stem, or
/// a fixed placeholder when the path has none.
pub open spec fn spec_base_filename(path: Seq<char>) -> Seq<char> {
    match path_stem(path) {
        Some(s) => s,
        None => "workbook"@,
    }
}

/// The file stem of `path`, falling back to a fixed placeholder.
pub fn get_base_filename(path: &str) -> (r: String)
    ensures
        r@ == spec_base_filename(path@),
{
    match file_stem_of(path) {
        Some(s) => s,
        None => "workbook".to_owned(),
    }
}

/// The candidate name a sheet gets before normalization: stem, underscore,
/// original name.
pub open spec fn candidate_name(stem: Seq<char>, sheet: Seq<char>) -> Seq<char> {
    stem + seq!['_'] + sheet
}

/// A source workbook as the merge sees it: its namespace stem and its
/// ordered sheet names.
pub open spec fn source_model(v: Seq<(String, Workbook)>) -> Seq<(Seq<char>, Seq<Seq<char>>)> {
    v.map_values(|pb: (String, Workbook)| (spec_base_filename(pb.0@), book_names(pb.1)))
}

/// The names the merge hands out for the given sources, starting from the
/// counters `m`, in output order.
pub open spec fn plan_names(srcs: Seq<(Seq<char>, Seq<Seq<char>>)>, m: Map<Seq<char>, nat>) -> Seq<
    Seq<char>,
>
    decreases srcs.len(), srcs.first().1.len() via plan_names_decreases
{
    if srcs.len() == 0 {
        Seq::empty()
    } else if srcs.first().1.len() == 0 {
        plan_names(srcs.drop_first(), m)
    } else {
        let stem = srcs.first().0;
        let sheets = srcs.first().1;
        let cand = candidate_name(stem, sheets.first());
        seq![spec_unique_name(cand, m)] + plan_names(
            seq![(stem, sheets.drop_first())] + srcs.drop_first(),
            spec_register(cand, m),
        )
    }
}

#[via_fn]
proof fn plan_names_decreases(srcs: Seq<(Seq<char>, Seq<Seq<char>>)>, m: Map<Seq<char>, nat>) {
    if srcs.len() > 0 && srcs.first().1.len() > 0 {
        let rest = seq![(srcs.first().0, srcs.first().1.drop_first())] + srcs.drop_first();
        assert(rest.len() == srcs.len());
        assert(rest.first().1.len() < srcs.first().1.len());
    }
}

/// The sheet names of the workbook a merge of these sources produces.
pub open spec fn merged_names(srcs: Seq<(Seq<char>, Seq<Seq<char>>)>) -> Seq<Seq<char>> {
    plan_names(srcs, Map::empty())
}

/// The total number of sheets across the sources.
pub open spec fn total_sheets(srcs: Seq<(Seq<char>, Seq<Seq<char>>)>) -> nat
    decreases srcs.len(),
{
    if srcs.len() == 0 {
        0
    } else {
        srcs.first().1.len() + total_sheets(srcs.drop_first())
    }
}

/// Merges the sheets of the given source workbooks, in source order then
/// sheet order, into one fresh workbook.  Fails with `TooFewFiles` below
/// two sources, with `NothingToMerge` when the sources hold no sheet at
/// all, and with `NameCollision` when two generated names coincide; on
/// success returns the new workbook and its sheet count.
pub fn merge_sheets(sources: &Vec<(String, Workbook)>) -> (r: Result<
    (Workbook, usize),
    SheetError,
>)
    ensures
        ({
            let model = source_model(sources@);
            let out = merged_names(model);
            match r {
                Ok(p) => model.len() >= 2 && out.len() > 0 && out.no_duplicates() && book_names(
                    p.0,
                ) == out && p.1 == out.len(),
                Err(e) => (e == SheetError::TooFewFiles && model.len() < 2) || (e
                    == SheetError::NothingToMerge && model.len() >= 2 && out.len() == 0) || (e
                    == SheetError::NameCollision && model.len() >= 2 && !out.no_duplicates()),
            }
        }),
{
    let ghost model = source_model(sources@);
    if sources.len() < 2 {
        return Err(SheetError::TooFewFiles);
    }
    let mut merged = new_empty_book();
    let mut reg = NameRegistry::new();
    proof {
        assert(model.skip(0) =~= model);
        assert(Seq::<Seq<char>>::empty() + plan_names(model, Map::empty()) =~= merged_names(
            model,
        ));
    }
    let mut i: usize = 0;
    while i < sources.len()
        invariant
            model == source_model(sources@),
            sources@.len() == model.len(),
            i <= model.len(),
            reg.wf(),
            merged_names(model) == book_names(merged) + plan_names(model.skip(i as int), reg@),
            book_names(merged).no_duplicates(),
            forall|b: Seq<char>|
                reg@.contains_key(b) ==> #[trigger] reg@[b] + 1 <= book_names(merged).len(),
            model.len() >= 2,
        decreases model.len() - i,
    {
        let stem = get_base_filename(sources[i].0.as_str());
        let bnames = sheet_names(&sources[i].1);
        proof {
            assert(model[i as int] == (spec_base_filename(sources@[i as int].0@), book_names(
                sources@[i as int].1,
            )));
            assert(model[i as int].1.skip(0) =~= model[i as int].1);
            assert((model[i as int].0, model[i as int].1.skip(0)) == model[i as int]);
            assert(seq![(model[i as int].0, model[i as int].1.skip(0))] + model.skip(i as int + 1)
                =~= model.skip(i as int));
        }
        let mut j: usize = 0;
        while j < bnames.len()
            invariant
                model == source_model(sources@),
                sources@.len() == model.len(),
                i < model.len(),
                j <= bnames@.len(),
                reg.wf(),
                stem@ == model[i as int].0,
                names_of(bnames@) == model[i as int].1,
                merged_names(model) == book_names(merged) + plan_names(
                    seq![(model[i as int].0, model[i as int].1.skip(j as int))] + model.skip(
                        i as int + 1,
                    ),
                    reg@,
                ),
                book_names(merged).no_duplicates(),
                forall|b: Seq<char>|
                    reg@.contains_key(b) ==> #[trigger] reg@[b] + 1 <= book_names(merged).len(),
                model.len() >= 2,
            decreases bnames@.len() - j,
        {
            let ghost sheets_rem = model[i as int].1.skip(j as int);
            let ghost mseq = seq![(model[i as int].0, sheets_rem)] + model.skip(i as int + 1);
            let ghost m0 = reg@;
            proof {
                assert(mseq.first() == (model[i as int].0, sheets_rem));
                assert(sheets_rem.first() == model[i as int].1[j as int]);
                assert(mseq.drop_first() =~= model.skip(i as int + 1));
            }
            let cur_len = sheet_count(&merged);
            let mut cand = stem.clone();
            cand.append("_");
            cand.append(bnames[j].as_str());
            proof {
                reveal_strlit("_");
                assert(cand@ =~= candidate_name(model[i as int].0, model[i as int].1[j as int]));
            }
            let nm = unique_sheet_name(cand.as_str(), &mut reg);
            let ghost u = spec_unique_name(candidate_name(
                model[i as int].0,
                model[i as int].1[j as int],
            ), m0);
            proof {
                assert(nm@ == u);
                assert(plan_names(mseq, m0) == seq![u] + plan_names(
                    seq![(model[i as int].0, sheets_rem.drop_first())] + mseq.drop_first(),
                    reg@,
                ));
                assert(sheets_rem.drop_first() =~= model[i as int].1.skip(j as int + 1));
                assert(seq![(model[i as int].0, sheets_rem.drop_first())] + mseq.drop_first()
                    =~= seq![(model[i as int].0, model[i as int].1.skip(j as int + 1))]
                    + model.skip(i as int + 1));
            }
            let ws = sheet_at(&sources[i].1, j);
            let mut cl = clone_sheet(ws);
            set_sheet_name(&mut cl, nm.as_str());
            let ghost pre_names = book_names(merged);
            let res = add_sheet_to(&mut merged, cl);
            if res.is_err() {
                proof {
                    assert(pre_names.contains(u));
                    let a = choose|a: int| 0 <= a < pre_names.len() && pre_names[a] == u;
                    let out = merged_names(model);
                    assert(out == pre_names + plan_names(mseq, m0));
                    assert(out[a] == u);
                    assert(out[pre_names.len() as int] == u);
                    assert(!out.no_duplicates());
                }
                return Err(SheetError::NameCollision);
            }
            proof {
                assert(book_names(merged) == pre_names.push(nm@));
                assert(pre_names.push(nm@) + plan_names(
                    seq![(model[i as int].0, model[i as int].1.skip(j as int + 1))] + model.skip(
                        i as int + 1,
                    ),
                    reg@,
                ) =~= pre_names + (seq![u] + plan_names(
                    seq![(model[i as int].0, model[i as int].1.skip(j as int + 1))] + model.skip(
                        i as int + 1,
                    ),
                    reg@,
                )));
                assert(!pre_names.contains(nm@));
                assert forall|a: int, b: int|
                    0 <= a < b < book_names(merged).len() implies book_names(merged)[a]
                    != book_names(merged)[b] by {
                    if b < book_names(merged).len() - 1 {
                        assert(book_names(merged)[a] == pre_names[a]);
                        assert(book_names(merged)[b] == pre_names[b]);
                    } else {
                        assert(book_names(merged)[b] == nm@);
                        if book_names(merged)[a] == nm@ {
                            assert(pre_names[a] == nm@);
                            assert(pre_names.contains(nm@));
                        }
                    }
                }
                assert forall|b: Seq<char>| reg@.contains_key(b) implies #[trigger] reg@[b] + 1
                    <= book_names(merged).len() by {
                    let nb = crate::normalize::spec_normalize(cand@);
                    assert(book_names(merged).len() == pre_names.len() + 1);
                    if b == nb {
                        if m0.contains_key(nb) {
                            assert(reg@[nb] == m0[nb] + 1);
                            assert(m0[nb] + 1 <= pre_names.len());
                        } else {
                            assert(reg@[nb] == 0);
                        }
                    } else {
                        assert(m0.contains_key(b) && m0[b] == reg@[b]);
                    }
                }
            }
            j += 1;
        }
        proof {
            assert(model[i as int].1.skip(j as int) =~= Seq::<Seq<char>>::empty());
            let tailseq = seq![(model[i as int].0, Seq::<Seq<char>>::empty())] + model.skip(
                i as int + 1,
            );
            assert(plan_names(tailseq, reg@) == plan_names(tailseq.drop_first(), reg@));
            assert(tailseq.drop_first() =~= model.skip(i as int + 1));
        }
        i += 1;
    }
    proof {
        assert(model.skip(i as int) =~= Seq::<(Seq<char>, Seq<Seq<char>>)>::empty());
        assert(plan_names(model.skip(i as int), reg@) == Seq::<Seq<char>>::empty());
        assert(book_names(merged) + Seq::<Seq<char>>::empty() =~= book_names(merged));
    }
    let total = sheet_count(&merged);
    if total == 0 {
        return Err(SheetError::NothingToMerge);
    }
    Ok((merged, total))
}

} // verus!
