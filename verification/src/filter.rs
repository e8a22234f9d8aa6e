//! The sheet filter: computes which sheets of a workbook match a wanted
//! set or a keyword and removes every other sheet in place, failing before
//! any mutation when nothing matches.

use vstd::prelude::*;
use umya_spreadsheet::Workbook;
use crate::book::book_names;
use crate::book::names_without;
use crate::book::remove_sheets_named;
use crate::book::sheet_count;
use crate::book::sheet_name_at;
use crate::chars::has_substring;
use crate::chars::spec_has_substring;
use crate::errors::SheetError;

verus! {

/// The character sequences a list of strings denotes, in order.
pub open spec fn names_of(v: Seq<String>) -> Seq<Seq<char>> {
    v.map_values(|s: String| s@)
}

/// The set of names a wanted list denotes.
pub open spec fn name_set(v: Seq<String>) -> Set<Seq<char>> {
    names_of(v).to_set()
}

/// The sheets that survive a filter by the wanted set, in their original
/// order.
pub open spec fn kept_names(names: Seq<Seq<char>>, wanted: Set<Seq<char>>) -> Seq<Seq<char>> {
    names.filter(|n: Seq<char>| wanted.contains(n))
}

/// The sheets whose name contains the keyword, in their original order.
pub open spec fn matching_names(names: Seq<Seq<char>>, keyword: Seq<char>) -> Seq<Seq<char>> {
    names.filter(|n: Seq<char>| spec_has_substring(n, keyword))
}

proof fn lemma_kept_step(names: Seq<Seq<char>>, wanted: Set<Seq<char>>, i: int)
    requires
        0 <= i < names.len(),
    ensures
        kept_names(names.take(i + 1), wanted) == if wanted.contains(names[i]) {
            kept_names(names.take(i), wanted).push(names[i])
        } else {
            kept_names(names.take(i), wanted)
        },
{
    reveal(Seq::filter);
    assert(names.take(i + 1).drop_last() =~= names.take(i));
    assert(names.take(i + 1).last() == names[i]);
}

proof fn lemma_matching_step(names: Seq<Seq<char>>, keyword: Seq<char>, i: int)
    requires
        0 <= i < names.len(),
    ensures
        matching_names(names.take(i + 1), keyword) == if spec_has_substring(names[i], keyword) {
            matching_names(names.take(i), keyword).push(names[i])
        } else {
            matching_names(names.take(i), keyword)
        },
{
    reveal(Seq::filter);
    assert(names.take(i + 1).drop_last() =~= names.take(i));
    assert(names.take(i + 1).last() == names[i]);
}

proof fn lemma_kept_elems(names: Seq<Seq<char>>, wanted: Set<Seq<char>>)
    ensures
        forall|k: int|
            0 <= k < kept_names(names, wanted).len() ==> wanted.contains(
                #[trigger] kept_names(names, wanted)[k],
            ),
    decreases names.len(),
{
    reveal(Seq::filter);
    if names.len() > 0 {
        lemma_kept_elems(names.drop_last(), wanted);
    }
}

proof fn lemma_without_identity(s: Seq<Seq<char>>, x: Seq<char>)
    requires
        forall|i: int| 0 <= i < s.len() ==> s[i] != x,
    ensures
        names_without(s, x) == s,
    decreases s.len(),
{
    reveal(Seq::filter);
    if s.len() > 0 {
        lemma_without_identity(s.drop_last(), x);
        assert(names_without(s, x) =~= s);
    } else {
        assert(names_without(s, x) =~= s);
    }
}

proof fn lemma_without_distributes(a: Seq<Seq<char>>, b: Seq<Seq<char>>, x: Seq<char>)
    ensures
        names_without(a + b, x) == names_without(a, x) + names_without(b, x),
    decreases b.len(),
{
    reveal(Seq::filter);
    if b.len() == 0 {
        assert(a + b =~= a);
        assert(names_without(a, x) + names_without(b, x) =~= names_without(a, x));
    } else {
        lemma_without_distributes(a, b.drop_last(), x);
        assert((a + b).drop_last() =~= a + b.drop_last());
        assert((a + b).last() == b.last());
        if b.last() != x {
            Seq::push_distributes_over_add(
                names_without(a, x),
                names_without(b.drop_last(), x),
                b.last(),
            );
        }
    }
}

proof fn lemma_without_singleton(x: Seq<char>)
    ensures
        names_without(seq![x], x) == Seq::<Seq<char>>::empty(),
{
    reveal_with_fuel(Seq::filter, 2);
    assert(seq![x].drop_last() =~= Seq::<Seq<char>>::empty());
    assert(names_without(seq![x], x) =~= Seq::<Seq<char>>::empty());
}

/// True exactly when `name` reads as one of the `wanted` strings.
fn contains_name(wanted: &Vec<String>, name: &String) -> (r: bool)
    ensures
        r == name_set(wanted@).contains(name@),
{
    let mut i: usize = 0;
    while i < wanted.len()
        invariant
            i <= wanted@.len(),
            forall|k: int| 0 <= k < i ==> wanted@[k]@ != name@,
        decreases wanted@.len() - i,
    {
        if wanted[i] == *name {
            proof {
                assert(names_of(wanted@)[i as int] == name@);
                assert(names_of(wanted@).contains(name@));
            }
            return true;
        }
        i += 1;
    }
    proof {
        assert(forall|k: int|
            0 <= k < names_of(wanted@).len() ==> #[trigger] names_of(wanted@)[k] != name@);
        assert(!names_of(wanted@).contains(name@));
    }
    false
}

/// The sheet names of `book`, in order.
pub fn sheet_names(book: &Workbook) -> (r: Vec<String>)
    ensures
        names_of(r@) == book_names(*book),
{
    let n = sheet_count(book);
    let mut r: Vec<String> = Vec::new();
    let mut i: usize = 0;
    while i < n
        invariant
            i <= n,
            n == book_names(*book).len(),
            r@.len() == i,
            forall|k: int| 0 <= k < i ==> r@[k]@ == book_names(*book)[k],
        decreases n - i,
    {
        let name = sheet_name_at(book, i);
        r.push(name);
        i += 1;
    }
    proof {
        assert(names_of(r@) =~= book_names(*book));
    }
    r
}

/// True exactly when no two of the given strings read the same.
pub fn names_distinct(names: &Vec<String>) -> (r: bool)
    ensures
        r == names_of(names@).no_duplicates(),
{
    let mut i: usize = 0;
    while i < names.len()
        invariant
            i <= names@.len(),
            forall|a: int, b: int| 0 <= a < b < i ==> names@[a]@ != names@[b]@,
        decreases names@.len() - i,
    {
        let mut j: usize = 0;
        while j < i
            invariant
                j <= i,
                i < names@.len(),
                forall|a: int, b: int| 0 <= a < b < i ==> names@[a]@ != names@[b]@,
                forall|b: int| 0 <= b < j ==> names@[b]@ != names@[i as int]@,
            decreases i - j,
        {
            if names[j] == names[i] {
                proof {
                    assert(names_of(names@)[j as int] == names_of(names@)[i as int]);
                    assert(!names_of(names@).no_duplicates());
                }
                return false;
            }
            j += 1;
        }
        i += 1;
    }
    proof {
        assert forall|a: int, b: int|
            0 <= a < names_of(names@).len() && 0 <= b < names_of(names@).len() && a != b
            implies names_of(names@)[a] != names_of(names@)[b] by {
            assert(names_of(names@)[a] == names@[a]@);
            assert(names_of(names@)[b] == names@[b]@);
            if a < b {
                assert(names@[a]@ != names@[b]@);
            } else {
                assert(names@[b]@ != names@[a]@);
            }
        }
    }
    true
}

/// Removes every sheet whose name is not in `wanted`, in place.  Nothing is
/// removed, and `NoMatchingSheets` is returned, when no wanted name matches
/// an existing sheet; otherwise the count of surviving sheets is returned.
pub fn filter_sheets(book: &mut Workbook, wanted: &Vec<String>) -> (r: Result<usize, SheetError>)
    requires
        book_names(*old(book)).no_duplicates(),
    ensures
        ({
            let names0 = book_names(*old(book));
            let kept = kept_names(names0, name_set(wanted@));
            match r {
                Ok(count) => kept.len() > 0 && count == kept.len() && book_names(*final(book))
                    == kept,
                Err(e) => e == SheetError::NoMatchingSheets && kept.len() == 0 && book_names(
                    *final(book),
                ) == names0,
            }
        }),
{
    let ghost names0 = book_names(*book);
    let ghost wset = name_set(wanted@);
    let all_names = sheet_names(book);
    proof {
        reveal(Seq::filter);
        assert(names0.take(0) =~= Seq::<Seq<char>>::empty());
        assert(kept_names(names0.take(0), wset) =~= Seq::<Seq<char>>::empty());
    }
    let mut kept_count: usize = 0;
    let mut i: usize = 0;
    while i < all_names.len()
        invariant
            i <= all_names@.len(),
            names_of(all_names@) == names0,
            wset == name_set(wanted@),
            kept_count <= i,
            kept_count == kept_names(names0.take(i as int), wset).len(),
        decreases all_names@.len() - i,
    {
        let is_in = contains_name(wanted, &all_names[i]);
        proof {
            lemma_kept_step(names0, wset, i as int);
        }
        if is_in {
            kept_count += 1;
        }
        i += 1;
    }
    proof {
        assert(names0.take(names0.len() as int) =~= names0);
    }
    if kept_count == 0 {
        return Err(SheetError::NoMatchingSheets);
    }
    proof {
        reveal(Seq::filter);
        assert(names0.take(0) =~= Seq::<Seq<char>>::empty());
        assert(kept_names(names0.take(0), wset) =~= Seq::<Seq<char>>::empty());
        assert(names0.skip(0) =~= names0);
        assert(kept_names(names0.take(0), wset) + names0.skip(0) =~= names0);
    }
    let mut k: usize = 0;
    while k < all_names.len()
        invariant
            k <= all_names@.len(),
            names_of(all_names@) == names0,
            names0.no_duplicates(),
            wset == name_set(wanted@),
            book_names(*book) == kept_names(names0.take(k as int), wset) + names0.skip(k as int),
        decreases all_names@.len() - k,
    {
        let ghost fpart = kept_names(names0.take(k as int), wset);
        let ghost rpart = names0.skip(k as int);
        let ghost n = names0[k as int];
        proof {
            assert(rpart[0] == n);
            assert(rpart =~= seq![n] + names0.skip(k as int + 1));
            lemma_kept_step(names0, wset, k as int);
        }
        let keep = contains_name(wanted, &all_names[k]);
        if !keep {
            proof {
                assert((fpart + rpart)[fpart.len() as int] == n);
                assert(book_names(*book).contains(n));
            }
            let res = remove_sheets_named(book, all_names[k].as_str());
            proof {
                lemma_without_distributes(fpart, rpart, n);
                lemma_kept_elems(names0.take(k as int), wset);
                lemma_without_identity(fpart, n);
                lemma_without_distributes(seq![n], names0.skip(k as int + 1), n);
                lemma_without_singleton(n);
                assert forall|t: int|
                    0 <= t < names0.skip(k as int + 1).len() implies #[trigger] names0.skip(
                    k as int + 1,
                )[t] != n by {
                    assert(names0.skip(k as int + 1)[t] == names0[k as int + 1 + t]);
                }
                lemma_without_identity(names0.skip(k as int + 1), n);
                assert(names_without(rpart, n) =~= names0.skip(k as int + 1));
                assert(book_names(*book) =~= kept_names(names0.take(k as int + 1), wset)
                    + names0.skip(k as int + 1));
            }
            if res.is_err() {
                // unreachable: the sheet named `n` is present, so removal succeeds
                return Err(SheetError::NoMatchingSheets);
            }
        } else {
            proof {
                assert(fpart.push(n) + names0.skip(k as int + 1) =~= fpart + rpart);
                assert(book_names(*book) =~= kept_names(names0.take(k as int + 1), wset)
                    + names0.skip(k as int + 1));
            }
        }
        k += 1;
    }
    proof {
        assert(names0.take(names0.len() as int) =~= names0);
        assert(names0.skip(names0.len() as int) =~= Seq::<Seq<char>>::empty());
        assert(kept_names(names0, wset) + Seq::<Seq<char>>::empty() =~= kept_names(names0, wset));
    }
    Ok(kept_count)
}

proof fn lemma_kept_eq_matching(names: Seq<Seq<char>>, sel: Set<Seq<char>>, keyword: Seq<char>)
    requires
        forall|x: Seq<char>|
            names.contains(x) ==> (sel.contains(x) <==> spec_has_substring(x, keyword)),
    ensures
        kept_names(names, sel) == matching_names(names, keyword),
    decreases names.len(),
{
    reveal(Seq::filter);
    if names.len() > 0 {
        assert forall|x: Seq<char>| names.drop_last().contains(x) implies (sel.contains(x)
            <==> spec_has_substring(x, keyword)) by {
            let t = choose|t: int|
                0 <= t < names.drop_last().len() && names.drop_last()[t] == x;
            assert(names[t] == x);
        }
        lemma_kept_eq_matching(names.drop_last(), sel, keyword);
        assert(names.contains(names.last()));
    }
}

/// Keeps exactly the sheets whose name contains `keyword`, in place.
/// Fails with `NoKeywordMatch`, touching nothing, when no name contains it.
pub fn extract_by_keyword_sheets(book: &mut Workbook, keyword: &str) -> (r: Result<
    usize,
    SheetError,
>)
    requires
        book_names(*old(book)).no_duplicates(),
    ensures
        ({
            let names0 = book_names(*old(book));
            let matching = matching_names(names0, keyword@);
            match r {
                Ok(count) => matching.len() > 0 && count == matching.len() && book_names(
                    *final(book),
                ) == matching,
                Err(e) => e == SheetError::NoKeywordMatch && matching.len() == 0 && book_names(
                    *final(book),
                ) == names0,
            }
        }),
{
    let ghost names0 = book_names(*book);
    let all_names = sheet_names(book);
    proof {
        reveal(Seq::filter);
        assert(names0.take(0) =~= Seq::<Seq<char>>::empty());
        assert(matching_names(names0.take(0), keyword@) =~= Seq::<Seq<char>>::empty());
        assert(names_of(Seq::<String>::empty()) =~= Seq::<Seq<char>>::empty());
    }
    let mut selected: Vec<String> = Vec::new();
    let mut i: usize = 0;
    while i < all_names.len()
        invariant
            i <= all_names@.len(),
            names_of(all_names@) == names0,
            names_of(selected@) == matching_names(names0.take(i as int), keyword@),
        decreases all_names@.len() - i,
    {
        proof {
            lemma_matching_step(names0, keyword@, i as int);
        }
        if has_substring(all_names[i].as_str(), keyword) {
            let picked = all_names[i].clone();
            selected.push(picked);
            proof {
                assert(names_of(selected@) =~= matching_names(names0.take(i as int + 1), keyword@));
            }
        }
        i += 1;
    }
    proof {
        assert(names0.take(names0.len() as int) =~= names0);
    }
    if selected.len() == 0 {
        return Err(SheetError::NoKeywordMatch);
    }
    proof {
        assert forall|x: Seq<char>| names0.contains(x) implies (name_set(selected@).contains(x)
            <==> spec_has_substring(x, keyword@)) by {
            if spec_has_substring(x, keyword@) {
                let t = choose|t: int| 0 <= t < names0.len() && names0[t] == x;
                names0.lemma_filter_contains(
                    |n: Seq<char>| spec_has_substring(n, keyword@),
                    t,
                );
            }
            if name_set(selected@).contains(x) {
                let t = choose|t: int|
                    0 <= t < names_of(selected@).len() && names_of(selected@)[t] == x;
                names0.lemma_filter_pred(|n: Seq<char>| spec_has_substring(n, keyword@), t);
            }
        }
        lemma_kept_eq_matching(names0, name_set(selected@), keyword@);
    }
    match filter_sheets(book, &selected) {
        Ok(count) => Ok(count),
        Err(_) => {
            // unreachable: at least one name matched, so the filter keeps it
            Err(SheetError::NoKeywordMatch)
        },
    }
}

/// Keeps exactly the sheets named in `sheets`, in place.  Fails with
/// `EmptySelection` when the selection is empty, and with
/// `NoMatchingSheets`, touching nothing, when none of the names exists.
pub fn extract_by_selection_sheets(book: &mut Workbook, sheets: &Vec<String>) -> (r: Result<
    usize,
    SheetError,
>)
    requires
        book_names(*old(book)).no_duplicates(),
    ensures
        ({
            let names0 = book_names(*old(book));
            let kept = kept_names(names0, name_set(sheets@));
            match r {
                Ok(count) => sheets@.len() > 0 && kept.len() > 0 && count == kept.len()
                    && book_names(*final(book)) == kept,
                Err(e) => book_names(*final(book)) == names0 && ((e == SheetError::EmptySelection
                    && sheets@.len() == 0) || (e == SheetError::NoMatchingSheets && sheets@.len()
                    > 0 && kept.len() == 0)),
            }
        }),
{
    if sheets.len() == 0 {
        return Err(SheetError::EmptySelection);
    }
    filter_sheets(book, sheets)
}

} // verus!
