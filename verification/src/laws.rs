//! Laws that tie the components together, proved once and for all inputs.

use vstd::prelude::*;
use crate::chars::spec_take_chars;
use crate::digits::dec_str;
use crate::digits::is_digit_char;
use crate::digits::lemma_dec_str_digits;
use crate::digits::lemma_dec_str_injective;
use crate::digits::lemma_dec_str_len_u64;
use crate::filter::kept_names;
use crate::merge::candidate_name;
use crate::merge::merged_names;
use crate::merge::plan_names;
use crate::merge::total_sheets;
use crate::errors::SheetError;
use crate::normalize::spec_normalize;
use crate::normalize::spec_register;
use crate::normalize::spec_suffix;
use crate::normalize::spec_suffixed;
use crate::normalize::spec_unique_name;

verus! {

/// First use is the identity: against a fresh registry, any candidate of
/// at most 31 characters comes back unchanged.
pub proof fn lemma_first_use_identity(base: Seq<char>)
    requires
        base.len() <= 31,
    ensures
        spec_unique_name(base, Map::<Seq<char>, nat>::empty()) == base,
{
}

/// A filter keeps exactly one sheet per element of the intersection of the
/// wanted set with the workbook's (duplicate-free) sheet names.
pub proof fn lemma_filter_count_is_intersection(names: Seq<Seq<char>>, wanted: Set<Seq<char>>)
    requires
        names.no_duplicates(),
    ensures
        kept_names(names, wanted).len() == names.to_set().intersect(wanted).len(),
    decreases names.len(),
{
    broadcast use vstd::set::group_set_axioms;
    broadcast use vstd::seq_lib::seq_to_set_is_finite;

    reveal(Seq::filter);
    if names.len() == 0 {
        assert(names.to_set().intersect(wanted) =~= Set::<Seq<char>>::empty());
    } else {
        let dl = names.drop_last();
        let last = names.last();
        assert forall|a: int, b: int| 0 <= a < dl.len() && 0 <= b < dl.len() && a != b
            implies dl[a] != dl[b] by {
            assert(names[a] == dl[a]);
            assert(names[b] == dl[b]);
        }
        lemma_filter_count_is_intersection(dl, wanted);
        assert(names.to_set() =~= dl.to_set().insert(last)) by {
            assert forall|x: Seq<char>| names.to_set().contains(x) implies dl.to_set().insert(
                last,
            ).contains(x) by {
                let t = choose|t: int| 0 <= t < names.len() && names[t] == x;
                if t < names.len() - 1 {
                    assert(dl[t] == x);
                    assert(dl.contains(x));
                }
            }
            assert forall|x: Seq<char>| dl.to_set().insert(last).contains(x)
                implies names.to_set().contains(x) by {
                if x == last {
                    assert(names[names.len() - 1] == x);
                } else {
                    let t = choose|t: int| 0 <= t < dl.len() && dl[t] == x;
                    assert(names[t] == x);
                }
            }
        }
        assert(!dl.to_set().contains(last)) by {
            if dl.contains(last) {
                let t = choose|t: int| 0 <= t < dl.len() && dl[t] == last;
                assert(names[t] == names[names.len() - 1]);
            }
        }
        assert(dl.to_set().finite());
        assert(dl.to_set().intersect(wanted).finite());
        if wanted.contains(last) {
            assert(names.to_set().intersect(wanted) =~= dl.to_set().intersect(wanted).insert(
                last,
            ));
            assert(!dl.to_set().intersect(wanted).contains(last));
            assert(names.to_set().intersect(wanted).len() == dl.to_set().intersect(wanted).len()
                + 1);
        } else {
            assert(names.to_set().intersect(wanted) =~= dl.to_set().intersect(wanted));
        }
    }
}

proof fn lemma_suffixed_shorter(nb: Seq<char>, j: nat, k: nat)
    requires
        1 <= j <= u64::MAX,
        1 <= k <= u64::MAX,
        spec_suffix(j).len() < spec_suffix(k).len(),
    ensures
        spec_suffixed(nb, j) != spec_suffixed(nb, k),
{
    lemma_dec_str_len_u64(j);
    lemma_dec_str_len_u64(k);
    let sj = spec_suffix(j);
    let sk = spec_suffix(k);
    let lj = sj.len() as int;
    let lk = sk.len() as int;
    let nj = spec_suffixed(nb, j);
    let nk = spec_suffixed(nb, k);
    let tj = spec_take_chars(nb, 31 - lj);
    let tk = spec_take_chars(nb, 31 - lk);
    if nj == nk {
        assert(nj == tj + sj);
        assert(nk == tk + sk);
        assert(nj.len() == nk.len());
        assert(tj.len() + lj == tk.len() + lk);
        assert(tj.len() > tk.len());
        assert(tk.len() == 31 - lk);
        assert(tj.len() == 31 - lj);
        let p = 31 - lj;
        assert(nj[p] == sj[0]);
        assert(sj[0] == '_');
        assert(nk[p] == sk[p - (31 - lk)]);
        assert(sk[lk - lj] == dec_str(k)[lk - lj - 1]);
        lemma_dec_str_digits(k);
        assert(is_digit_char(nk[p]));
        assert(!is_digit_char('_'));
    }
}

/// Two different collision counters never yield the same suffixed name:
/// the `j`-th and `k`-th reuse of one normalized base always differ, even
/// when the base is shortened to make room for the counter.
pub proof fn lemma_suffixed_names_distinct(nb: Seq<char>, j: nat, k: nat)
    requires
        1 <= j <= u64::MAX,
        1 <= k <= u64::MAX,
        j != k,
    ensures
        spec_suffixed(nb, j) != spec_suffixed(nb, k),
{
    lemma_dec_str_len_u64(j);
    lemma_dec_str_len_u64(k);
    let sj = spec_suffix(j);
    let sk = spec_suffix(k);
    if sj.len() == sk.len() {
        if spec_suffixed(nb, j) == spec_suffixed(nb, k) {
            let nj = spec_suffixed(nb, j);
            let tlen = spec_take_chars(nb, 31 - sj.len()).len() as int;
            assert(forall|i: int| 0 <= i < sj.len() ==> #[trigger] sj[i] == nj[tlen + i]);
            assert(forall|i: int|
                0 <= i < sk.len() ==> #[trigger] sk[i] == spec_suffixed(nb, k)[tlen + i]);
            assert(sj =~= sk);
            assert(dec_str(j) =~= dec_str(k)) by {
                assert(forall|i: int|
                    0 <= i < dec_str(j).len() ==> #[trigger] dec_str(j)[i] == sj[i + 1]);
                assert(forall|i: int|
                    0 <= i < dec_str(k).len() ==> #[trigger] dec_str(k)[i] == sk[i + 1]);
            }
            lemma_dec_str_injective(j, k);
        }
    } else if sj.len() < sk.len() {
        lemma_suffixed_shorter(nb, j, k);
    } else {
        lemma_suffixed_shorter(nb, k, j);
    }
}

/// Two reuses of one base against registries that record different
/// collision counts come out under different names.
pub proof fn lemma_distinct_counts_distinct_names(
    base: Seq<char>,
    m1: Map<Seq<char>, nat>,
    m2: Map<Seq<char>, nat>,
)
    requires
        m1.contains_key(spec_normalize(base)),
        m2.contains_key(spec_normalize(base)),
        m1[spec_normalize(base)] != m2[spec_normalize(base)],
        m1[spec_normalize(base)] + 1 <= u64::MAX,
        m2[spec_normalize(base)] + 1 <= u64::MAX,
    ensures
        spec_unique_name(base, m1) != spec_unique_name(base, m2),
{
    let nb = spec_normalize(base);
    lemma_suffixed_names_distinct(nb, m1[nb] + 1, m2[nb] + 1);
}

/// Every failure carries its own user-facing message.
pub proof fn lemma_messages_distinct(a: SheetError, b: SheetError)
    requires
        a != b,
    ensures
        a.spec_message() != b.spec_message(),
{
    reveal_strlit("シートが選択されていません");
    reveal_strlit("該当するシートがありませんでした");
    reveal_strlit("対象のシートが見つかりませんでした");
    reveal_strlit("2つ以上のファイルを選択してください");
    reveal_strlit("マージ対象のシートが見つかりませんでした");
    reveal_strlit("Name Duplicate");
    // the six messages all have different lengths
    assert("シートが選択されていません"@.len() == 13);
    assert("該当するシートがありませんでした"@.len() == 16);
    assert("対象のシートが見つかりませんでした"@.len() == 17);
    assert("2つ以上のファイルを選択してください"@.len() == 18);
    assert("マージ対象のシートが見つかりませんでした"@.len() == 20);
    assert("Name Duplicate"@.len() == 14);
}

/// A suffixed name never falls back onto its base, as long as the base is
/// shorter than the 31-character cap.  (A full 31-character base that
/// itself ends in a counter suffix can reproduce itself; such a reuse is
/// caught later, when the destination workbook refuses the duplicate.)
pub proof fn lemma_suffixed_differs_from_base(nb: Seq<char>, k: nat)
    requires
        1 <= k <= u64::MAX,
        nb.len() < 31,
    ensures
        spec_suffixed(nb, k) != nb,
{
    lemma_dec_str_len_u64(k);
    let sk = spec_suffix(k);
    let tk = spec_take_chars(nb, 31 - sk.len());
    assert(spec_suffixed(nb, k) == tk + sk);
    assert(spec_suffixed(nb, k).len() == tk.len() + sk.len());
    if nb.len() > 31 - sk.len() {
        assert(spec_suffixed(nb, k).len() == 31);
    } else {
        assert(spec_suffixed(nb, k).len() == nb.len() + sk.len());
    }
}

proof fn lemma_plan_len(srcs: Seq<(Seq<char>, Seq<Seq<char>>)>, m: Map<Seq<char>, nat>)
    ensures
        plan_names(srcs, m).len() == total_sheets(srcs),
    decreases srcs.len(), srcs.first().1.len(),
{
    if srcs.len() == 0 {
    } else if srcs.first().1.len() == 0 {
        lemma_plan_len(srcs.drop_first(), m);
    } else {
        let stem = srcs.first().0;
        let sheets = srcs.first().1;
        let cand = candidate_name(stem, sheets.first());
        let rest = seq![(stem, sheets.drop_first())] + srcs.drop_first();
        assert(rest.len() == srcs.len());
        assert(rest.first().1.len() < srcs.first().1.len());
        lemma_plan_len(rest, spec_register(cand, m));
        assert(rest.drop_first() =~= srcs.drop_first());
    }
}

/// A merge writes one sheet per source sheet: the output holds exactly as
/// many names as the sources hold sheets in total.
pub proof fn lemma_merged_count(srcs: Seq<(Seq<char>, Seq<Seq<char>>)>)
    ensures
        merged_names(srcs).len() == total_sheets(srcs),
{
    lemma_plan_len(srcs, Map::empty());
}

} // verus!
