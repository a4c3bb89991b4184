//! Shape and duplicate validation of a directory-mode batch.
//!
//! Directory mode asks two things of a batch before anything is
//! expanded: the decorated function must take exactly two string-slice
//! parameters, and no case name may be produced by more than one file.
//! Conflicting names are reported together with every contributing
//! relative path, sorted for deterministic output.

use vstd::prelude::*;
use crate::collect::{CollectedCase, SpecCollectedCase};
use crate::model::{Param, SpecParam, copy_string};

verus! {

/// The shape directory mode requires of the decorated function: exactly
/// two parameters, each of type `&str`.
pub open spec fn spec_signature_ok(params: Seq<SpecParam>) -> bool {
    params.len() == 2 && params[0].ty == "&str"@ && params[1].ty == "&str"@
}

/// Whether the decorated function's parameters fit directory mode.
pub fn signature_ok(params: &Vec<Param>) -> (r: bool)
    ensures
        r == spec_signature_ok(params@.map_values(|p: Param| p@)),
{
    if params.len() != 2 {
        return false;
    }
    let expected = "&str".to_owned();
    params[0].ty.eq(&expected) && params[1].ty.eq(&expected)
}

/// Lexicographic order on character sequences, by code point.
pub open spec fn lex_le(a: Seq<char>, b: Seq<char>) -> bool
    decreases a.len(),
{
    if a.len() == 0 {
        true
    } else if b.len() == 0 {
        false
    } else if (a[0] as u32) < (b[0] as u32) {
        true
    } else if (a[0] as u32) == (b[0] as u32) {
        lex_le(a.drop_first(), b.drop_first())
    } else {
        false
    }
}

/// The lexicographic order is total.
pub proof fn lemma_lex_le_total(a: Seq<char>, b: Seq<char>)
    ensures
        lex_le(a, b) || lex_le(b, a),
    decreases a.len(),
{
    if a.len() > 0 && b.len() > 0 && (a[0] as u32) == (b[0] as u32) {
        lemma_lex_le_total(a.drop_first(), b.drop_first());
    }
}

/// The lexicographic order is transitive.
pub proof fn lemma_lex_le_trans(a: Seq<char>, b: Seq<char>, c: Seq<char>)
    requires
        lex_le(a, b),
        lex_le(b, c),
    ensures
        lex_le(a, c),
    decreases a.len(),
{
    if a.len() > 0 && b.len() > 0 && c.len() > 0
        && (a[0] as u32) == (b[0] as u32) && (b[0] as u32) == (c[0] as u32) {
        lemma_lex_le_trans(a.drop_first(), b.drop_first(), c.drop_first());
    }
}

/// Compares two strings in the lexicographic order.
pub fn str_lex_le(a: &str, b: &str) -> (r: bool)
    ensures
        r == lex_le(a@, b@),
{
    let alen: usize = a.unicode_len();
    let blen: usize = b.unicode_len();
    let mut i: usize = 0;
    proof {
        assert(a@.skip(0) =~= a@);
        assert(b@.skip(0) =~= b@);
    }
    while i < alen && i < blen
        invariant
            alen == a@.len(),
            blen == b@.len(),
            i <= alen,
            i <= blen,
            lex_le(a@, b@) == lex_le(a@.skip(i as int), b@.skip(i as int)),
        decreases alen - i,
    {
        let ca = a.get_char(i) as u32;
        let cb = b.get_char(i) as u32;
        proof {
            assert(a@.skip(i as int)[0] == a@[i as int]);
            assert(b@.skip(i as int)[0] == b@[i as int]);
            assert(a@.skip(i as int).drop_first() =~= a@.skip(i + 1));
            assert(b@.skip(i as int).drop_first() =~= b@.skip(i + 1));
        }
        if ca < cb {
            return true;
        }
        if ca > cb {
            return false;
        }
        i = i + 1;
    }
    proof {
        if i >= alen {
            assert(a@.skip(i as int).len() == 0);
        } else {
            assert(b@.skip(i as int).len() == 0);
            assert(a@.skip(i as int).len() > 0);
        }
    }
    i >= alen
}

/// How many collected cases carry the given case name.
pub open spec fn spec_count_name(cases: Seq<SpecCollectedCase>, name: Seq<char>) -> nat
    decreases cases.len(),
{
    if cases.len() == 0 {
        0
    } else {
        spec_count_name(cases.drop_last(), name) + if cases.last().case_name == name {
            1nat
        } else {
            0nat
        }
    }
}

/// The relative paths of the collected cases that carry the given case
/// name, in collection order.
pub open spec fn spec_paths_of_name(cases: Seq<SpecCollectedCase>, name: Seq<char>) -> Seq<Seq<char>>
    decreases cases.len(),
{
    if cases.len() == 0 {
        Seq::empty()
    } else {
        let rest = spec_paths_of_name(cases.drop_last(), name);
        if cases.last().case_name == name {
            rest.push(cases.last().rel_path)
        } else {
            rest
        }
    }
}

/// A name that occurs at all occurs at some index.
pub proof fn lemma_count_pos_exists(cases: Seq<SpecCollectedCase>, name: Seq<char>)
    requires
        spec_count_name(cases, name) > 0,
    ensures
        exists|k: int| 0 <= k < cases.len() && cases[k].case_name == name,
    decreases cases.len(),
{
    if cases.len() > 0 {
        if cases.last().case_name == name {
            assert(cases[cases.len() - 1].case_name == name);
        } else {
            lemma_count_pos_exists(cases.drop_last(), name);
            let k = choose|k: int| 0 <= k < cases.drop_last().len()
                && cases.drop_last()[k].case_name == name;
            assert(cases[k].case_name == name);
        }
    }
}

/// A name carried by some case occurs at least once.
pub proof fn lemma_occurrence_counts(cases: Seq<SpecCollectedCase>, i: int)
    requires
        0 <= i < cases.len(),
    ensures
        spec_count_name(cases, cases[i].case_name) >= 1,
    decreases cases.len(),
{
    if i < cases.len() - 1 {
        lemma_occurrence_counts(cases.drop_last(), i);
    }
}

/// A name carried by two distinct cases is counted at least twice.
pub proof fn lemma_two_occurrences_count(cases: Seq<SpecCollectedCase>, i: int, j: int)
    requires
        0 <= i < j < cases.len(),
        cases[i].case_name == cases[j].case_name,
    ensures
        spec_count_name(cases, cases[i].case_name) >= 2,
    decreases cases.len(),
{
    if j == cases.len() - 1 {
        lemma_occurrence_counts(cases.drop_last(), i);
    } else {
        lemma_two_occurrences_count(cases.drop_last(), i, j);
    }
}

/// The path listing for a name holds the path of each of its cases.
pub proof fn lemma_paths_contain_occurrence(cases: Seq<SpecCollectedCase>, i: int)
    requires
        0 <= i < cases.len(),
    ensures
        spec_paths_of_name(cases, cases[i].case_name).contains(cases[i].rel_path),
    decreases cases.len(),
{
    let name = cases[i].case_name;
    let paths = spec_paths_of_name(cases, name);
    if i == cases.len() - 1 {
        assert(paths[paths.len() - 1] == cases[i].rel_path);
    } else {
        lemma_paths_contain_occurrence(cases.drop_last(), i);
        let rest = spec_paths_of_name(cases.drop_last(), name);
        let k = choose|k: int| 0 <= k < rest.len() && rest[k] == cases[i].rel_path;
        assert(paths[k] == cases[i].rel_path);
    }
}

/// One conflicting case name together with the relative paths of every
/// file that produced it.
#[derive(Debug)]
pub struct Conflict {
    pub case_name: String,
    pub rel_paths: Vec<String>,
}

/// The view of a [`Conflict`].
#[verifier::ext_equal]
pub ghost struct SpecConflict {
    pub case_name: Seq<char>,
    pub rel_paths: Seq<Seq<char>>,
}

impl View for Conflict {
    type V = SpecConflict;

    open spec fn view(&self) -> SpecConflict {
        SpecConflict {
            case_name: self.case_name@,
            rel_paths: self.rel_paths@.map_values(|p: String| p@),
        }
    }
}

/// What a correct conflict listing for `cases` looks like: one entry for
/// exactly each case name produced more than once, carrying exactly that
/// name's contributing paths in collection order, the names distinct and
/// sorted lexicographically.
pub open spec fn spec_conflicts_ok(cases: Seq<SpecCollectedCase>, cs: Seq<SpecConflict>) -> bool {
    &&& forall|j: int| 0 <= j < cs.len() ==> spec_count_name(cases, #[trigger] cs[j].case_name) >= 2
    &&& forall|j: int| 0 <= j < cs.len()
        ==> (#[trigger] cs[j].rel_paths) == spec_paths_of_name(cases, cs[j].case_name)
    &&& forall|n: Seq<char>| #[trigger] spec_count_name(cases, n) >= 2
        ==> exists|j: int| 0 <= j < cs.len() && cs[j].case_name == n
    &&& forall|j: int, k: int| 0 <= j < k < cs.len()
        ==> (#[trigger] cs[j].case_name) != (#[trigger] cs[k].case_name)
    &&& forall|j: int, k: int| 0 <= j < k < cs.len()
        ==> lex_le(#[trigger] cs[j].case_name, #[trigger] cs[k].case_name)
}

/// Collects the paths of every case that carries the given name.
fn paths_of_name(cases: &Vec<CollectedCase>, name: &String) -> (r: Vec<String>)
    ensures
        r@.map_values(|p: String| p@)
            == spec_paths_of_name(cases@.map_values(|c: CollectedCase| c@), name@),
{
    let ghost cview = cases@.map_values(|c: CollectedCase| c@);
    let mut out: Vec<String> = Vec::new();
    let mut j: usize = 0;
    while j < cases.len()
        invariant
            j <= cases.len(),
            cview == cases@.map_values(|c: CollectedCase| c@),
            out@.map_values(|p: String| p@) == spec_paths_of_name(cview.take(j as int), name@),
        decreases cases.len() - j,
    {
        proof {
            assert(cview.take(j + 1).drop_last() =~= cview.take(j as int));
            assert(cview.take(j + 1).last() == cview[j as int]);
        }
        if cases[j].case_name.eq(name) {
            out.push(copy_string(cases[j].rel_path.as_str()));
            proof {
                assert(out@.map_values(|p: String| p@)
                    =~= spec_paths_of_name(cview.take(j as int), name@).push(cview[j as int].rel_path));
            }
        }
        j = j + 1;
    }
    proof {
        assert(cview.take(cases.len() as int) =~= cview);
    }
    out
}

/// Whether some case before index `i` already carries the name of case `i`.
fn seen_before(cases: &Vec<CollectedCase>, i: usize) -> (r: bool)
    requires
        i < cases.len(),
    ensures
        r == exists|k: int| 0 <= k < i
            && (#[trigger] cases@[k])@.case_name == cases@[i as int]@.case_name,
{
    let mut k: usize = 0;
    while k < i
        invariant
            k <= i < cases.len(),
            forall|m: int| 0 <= m < k ==> (#[trigger] cases@[m])@.case_name != cases@[i as int]@.case_name,
        decreases i - k,
    {
        if cases[k].case_name.eq(&cases[i].case_name) {
            return true;
        }
        k = k + 1;
    }
    false
}

/// Counts the cases that carry the given name.
fn count_name(cases: &Vec<CollectedCase>, name: &String) -> (r: usize)
    ensures
        r == spec_count_name(cases@.map_values(|c: CollectedCase| c@), name@),
{
    let ghost cview = cases@.map_values(|c: CollectedCase| c@);
    let mut count: usize = 0;
    let mut j: usize = 0;
    while j < cases.len()
        invariant
            j <= cases.len(),
            count <= j,
            cview == cases@.map_values(|c: CollectedCase| c@),
            count == spec_count_name(cview.take(j as int), name@),
        decreases cases.len() - j,
    {
        proof {
            assert(cview.take(j + 1).drop_last() =~= cview.take(j as int));
            assert(cview.take(j + 1).last() == cview[j as int]);
        }
        if cases[j].case_name.eq(name) {
            count = count + 1;
        }
        j = j + 1;
    }
    proof {
        assert(cview.take(cases.len() as int) =~= cview);
    }
    count
}

/// Inserts a fresh name into a sorted listing of names, keeping it
/// sorted and duplicate-free; the elements afterwards are exactly the
/// old ones and the new name.
#[verifier::rlimit(30)]
fn insert_name_sorted(out: &mut Vec<String>, name: String)
    requires
        forall|j: int, k: int| 0 <= j < k < old(out)@.len()
            ==> lex_le((#[trigger] old(out)@[j])@, (#[trigger] old(out)@[k])@),
        forall|j: int, k: int| 0 <= j < k < old(out)@.len()
            ==> (#[trigger] old(out)@[j])@ != (#[trigger] old(out)@[k])@,
        forall|j: int| 0 <= j < old(out)@.len() ==> (#[trigger] old(out)@[j])@ != name@,
    ensures
        final(out)@.len() == old(out)@.len() + 1,
        forall|j: int, k: int| 0 <= j < k < final(out)@.len()
            ==> lex_le((#[trigger] final(out)@[j])@, (#[trigger] final(out)@[k])@),
        forall|j: int, k: int| 0 <= j < k < final(out)@.len()
            ==> (#[trigger] final(out)@[j])@ != (#[trigger] final(out)@[k])@,
        forall|j: int| 0 <= j < final(out)@.len()
            ==> (#[trigger] final(out)@[j])@ == name@
                || exists|k: int| 0 <= k < old(out)@.len() && (#[trigger] old(out)@[k])@ == final(out)@[j]@,
        forall|k: int| #![trigger old(out)@[k]] 0 <= k < old(out)@.len()
            ==> exists|j: int| 0 <= j < final(out)@.len() && (#[trigger] final(out)@[j])@ == old(out)@[k]@,
        exists|j: int| 0 <= j < final(out)@.len() && (#[trigger] final(out)@[j])@ == name@,
{
    let ghost before = out@;
    let mut p: usize = 0;
    while p < out.len() && str_lex_le(out[p].as_str(), name.as_str())
        invariant
            p <= out@.len(),
            before == out@,
            forall|m: int| 0 <= m < p ==> lex_le((#[trigger] out@[m])@, name@),
        decreases out@.len() - p,
    {
        p = p + 1;
    }
    proof {
        if p < before.len() {
            lemma_lex_le_total(before[p as int]@, name@);
        }
    }
    let ghost nview = name@;
    out.insert(p, name);
    proof {
        before.insert_ensures(p as int, out@[p as int]);
        assert(out@ == before.insert(p as int, out@[p as int]));
        assert(out@[p as int]@ == nview);
        assert forall|m: int| p < m < out@.len() implies lex_le(nview, (#[trigger] out@[m])@) by {
            assert(out@[m] == before[m - 1]);
            if m - 1 > p {
                lemma_lex_le_trans(nview, before[p as int]@, before[m - 1]@);
            }
        }
        assert forall|j: int| 0 <= j < out@.len() && j != p
            implies ((#[trigger] out@[j])@ == before[if j < p { j } else { j - 1 }]@) by {
            assert(out@[j] == before[if j < p { j } else { j - 1 }]);
        }
        assert forall|k: int| #![trigger before[k]] 0 <= k < before.len()
            implies exists|j: int| 0 <= j < out@.len() && (#[trigger] out@[j])@ == before[k]@ by {
            if k < p {
                assert(out@[k]@ == before[k]@);
            } else {
                assert(out@[k + 1]@ == before[k]@);
            }
        }
    }
}

/// The duplicated case names of the batch, sorted lexicographically,
/// each exactly once.
#[verifier::rlimit(100)]
fn duplicated_names_sorted(cases: &Vec<CollectedCase>, cv: Ghost<Seq<SpecCollectedCase>>) -> (r: Vec<String>)
    requires
        cv@ == cases@.map_values(|c: CollectedCase| c@),
    ensures
        forall|j: int| 0 <= j < r@.len()
            ==> spec_count_name(cv@, (#[trigger] r@[j])@) >= 2,
        forall|n: Seq<char>|
            #[trigger] spec_count_name(cv@, n) >= 2
            ==> exists|j: int| 0 <= j < r@.len() && (#[trigger] r@[j])@ == n,
        forall|j: int, k: int| 0 <= j < k < r@.len() ==> (#[trigger] r@[j])@ != (#[trigger] r@[k])@,
        forall|j: int, k: int| 0 <= j < k < r@.len()
            ==> lex_le((#[trigger] r@[j])@, (#[trigger] r@[k])@),
{
    let ghost cview = cases@.map_values(|c: CollectedCase| c@);
    let mut out: Vec<String> = Vec::new();
    let mut i: usize = 0;
    while i < cases.len()
        invariant
            i <= cases.len(),
            cview == cases@.map_values(|c: CollectedCase| c@),
            forall|j: int| 0 <= j < out@.len()
                ==> spec_count_name(cview, (#[trigger] out@[j])@) >= 2,
            forall|j: int| 0 <= j < out@.len()
                ==> exists|k: int| 0 <= k < i && (#[trigger] out@[j])@ == cview[k].case_name,
            forall|k: int| 0 <= k < i && spec_count_name(cview, (#[trigger] cview[k]).case_name) >= 2
                ==> exists|j: int| 0 <= j < out@.len() && (#[trigger] out@[j])@ == cview[k].case_name,
            forall|j: int, k: int| 0 <= j < k < out@.len()
                ==> (#[trigger] out@[j])@ != (#[trigger] out@[k])@,
            forall|j: int, k: int| 0 <= j < k < out@.len()
                ==> lex_le((#[trigger] out@[j])@, (#[trigger] out@[k])@),
        decreases cases.len() - i,
    {
        proof {
            assert(cview[i as int] == cases@[i as int]@);
        }
        let ghost outv_old = out@;
        if !seen_before(cases, i) {
            let c: usize = count_name(cases, &cases[i].case_name);
            if c >= 2 {
                proof {
                    // the name is new to the listing: a listed copy would
                    // point back to an earlier case with the same name
                    assert forall|j: int| 0 <= j < out@.len()
                        implies (#[trigger] out@[j])@ != cview[i as int].case_name by {
                        if out@[j]@ == cview[i as int].case_name {
                            let k = choose|k: int| 0 <= k < i
                                && (#[trigger] out@[j])@ == cview[k].case_name;
                            assert((cases@[k])@.case_name == cases@[i as int]@.case_name);
                        }
                    }
                }
                let name = copy_string(cases[i].case_name.as_str());
                insert_name_sorted(&mut out, name);
                proof {
                    assert forall|j: int| 0 <= j < out@.len()
                        implies spec_count_name(cview, (#[trigger] out@[j])@) >= 2
                            && exists|k: int| 0 <= k < i + 1
                                && (#[trigger] out@[j])@ == cview[k].case_name by {
                        if out@[j]@ == cview[i as int].case_name {
                            assert(out@[j]@ == cview[i as int].case_name);
                        } else {
                            let k = choose|k: int| 0 <= k < outv_old.len()
                                && (#[trigger] outv_old[k])@ == out@[j]@;
                            assert(spec_count_name(cview, outv_old[k]@) >= 2);
                        }
                    }
                    assert forall|k: int|
                        0 <= k < i + 1 && spec_count_name(cview, (#[trigger] cview[k]).case_name) >= 2
                        implies exists|j: int| 0 <= j < out@.len()
                            && (#[trigger] out@[j])@ == cview[k].case_name by {
                        if k == i as int {
                            let j = choose|j: int| 0 <= j < out@.len()
                                && (#[trigger] out@[j])@ == cview[i as int].case_name;
                            assert(out@[j]@ == cview[k].case_name);
                        } else {
                            let j0 = choose|j: int| 0 <= j < outv_old.len()
                                && (#[trigger] outv_old[j])@ == cview[k].case_name;
                            let j = choose|j: int| 0 <= j < out@.len()
                                && (#[trigger] out@[j])@ == outv_old[j0]@;
                            assert(out@[j]@ == cview[k].case_name);
                        }
                    }
                }
            }
        } else {
            proof {
                let k = choose|k: int| 0 <= k < i
                    && (#[trigger] cases@[k])@.case_name == cases@[i as int]@.case_name;
                assert(cview[k] == cases@[k]@);
                assert(cview[k].case_name == cview[i as int].case_name);
            }
        }
        i = i + 1;
    }
    proof {
        assert forall|n: Seq<char>| spec_count_name(cv@, n) >= 2
            implies exists|j: int| 0 <= j < out@.len() && (#[trigger] out@[j])@ == n by {
            lemma_count_pos_exists(cview, n);
            let k = choose|k: int| 0 <= k < cview.len() && (#[trigger] cview[k]).case_name == n;
            assert(spec_count_name(cview, cview[k].case_name) >= 2);
        }
    }
    out
}

/// Finds every duplicated case name of the batch: one conflict per
/// duplicated name, listing all contributing relative paths in
/// collection order, the conflicts sorted by name.
pub fn find_conflicts(cases: &Vec<CollectedCase>) -> (r: Vec<Conflict>)
    ensures
        spec_conflicts_ok(cases@.map_values(|c: CollectedCase| c@), r@.map_values(|c: Conflict| c@)),
{
    let ghost cview = cases@.map_values(|c: CollectedCase| c@);
    let names = duplicated_names_sorted(cases, Ghost(cview));
    let mut out: Vec<Conflict> = Vec::new();
    let mut i: usize = 0;
    while i < names.len()
        invariant
            i <= names.len(),
            cview == cases@.map_values(|c: CollectedCase| c@),
            out@.len() == i,
            forall|j: int| 0 <= j < i ==> (#[trigger] out@[j])@.case_name == names@[j]@,
            forall|j: int| 0 <= j < i
                ==> (#[trigger] out@[j])@.rel_paths == spec_paths_of_name(cview, names@[j]@),
        decreases names.len() - i,
    {
        let paths = paths_of_name(cases, &names[i]);
        out.push(Conflict { case_name: copy_string(names[i].as_str()), rel_paths: paths });
        i = i + 1;
    }
    proof {
        let csv = out@.map_values(|c: Conflict| c@);
        assert(forall|j: int| 0 <= j < csv.len() ==> #[trigger] csv[j] == out@[j]@);
        assert forall|n: Seq<char>| spec_count_name(cview, n) >= 2
            implies exists|j: int| 0 <= j < csv.len() && (#[trigger] csv[j]).case_name == n by {
            let j = choose|j: int| 0 <= j < names@.len() && (#[trigger] names@[j])@ == n;
            assert(csv[j].case_name == n);
        }
    }
    out
}


/// Two files whose names slugify to the same case name force a
/// duplicate-case failure whose listing names that case and both
/// contributing relative paths; with no such overlap the listing is
/// empty and the expansion goes through with the union of the cases.
pub proof fn lemma_duplicate_names_conflict(
    cases: Seq<SpecCollectedCase>,
    cs: Seq<SpecConflict>,
    i: int,
    j: int,
)
    requires
        spec_conflicts_ok(cases, cs),
        0 <= i < j < cases.len(),
        cases[i].case_name == cases[j].case_name,
    ensures
        cs.len() > 0,
        exists|k: int|
            0 <= k < cs.len() && (#[trigger] cs[k]).case_name == cases[i].case_name
                && cs[k].rel_paths.contains(cases[i].rel_path)
                && cs[k].rel_paths.contains(cases[j].rel_path),
{
    lemma_two_occurrences_count(cases, i, j);
    let name = cases[i].case_name;
    let k = choose|k: int| 0 <= k < cs.len() && (#[trigger] cs[k]).case_name == name;
    lemma_paths_contain_occurrence(cases, i);
    lemma_paths_contain_occurrence(cases, j);
    assert(cs[k].case_name == name && cs[k].rel_paths.contains(cases[i].rel_path)
        && cs[k].rel_paths.contains(cases[j].rel_path));
}

} // verus!
