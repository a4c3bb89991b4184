//! The test expander: from a validated batch to the output fragment.
//!
//! Explicit mode turns each declared case into one generated function;
//! directory mode first checks the decorated function's shape, collects
//! the cases of every listed directory in order, rejects duplicated case
//! names, and then expands exactly as explicit mode does.

use vstd::prelude::*;
use crate::model::{
    Arg, SpecArg, Binding, SpecBinding, CaseSpec, SpecCaseSpec, GeneratedCase,
    Param, SpecParam, SpecTestFn, SpecTestGroup, TestFn, TestGroup,
    copy_arg, copy_string, copy_strings,
};
use crate::collect::{
    CollectedCase, DirListing, SpecCollectedCase, SpecDirListing, SpecListing, Listing,
    collect_entries, spec_collect_entries, spec_file_count, lemma_collect_entries_len,
};
use crate::validate::{
    Conflict, signature_ok, spec_signature_ok, spec_conflicts_ok, spec_count_name,
    find_conflicts,
};
use crate::error::{ExpandError, SpecExpandError};

verus! {

/// The smaller of two lengths.
pub open spec fn spec_min(a: int, b: int) -> int {
    if a <= b {
        a
    } else {
        b
    }
}

/// The binding preamble of one generated function: the parameters
/// paired positionally with a case's arguments.  A count mismatch is
/// deliberately not diagnosed here: the unpaired tail is dropped, and a
/// mismatch surfaces downstream, at the generated body's references.
pub open spec fn spec_bindings(params: Seq<SpecParam>, args: Seq<SpecArg>) -> Seq<SpecBinding> {
    Seq::new(
        spec_min(params.len() as int, args.len() as int) as nat,
        |i: int| SpecBinding { name: params[i].name, ty: params[i].ty, value: args[i] },
    )
}

/// One generated function: named after the case, carrying the decorated
/// function's other attributes unchanged and in order, the binding
/// preamble, and the original body.
pub open spec fn spec_generated_case(f: SpecTestFn, c: SpecCaseSpec) -> crate::model::SpecGeneratedCase {
    crate::model::SpecGeneratedCase {
        name: c.name,
        attrs: f.attrs,
        bindings: spec_bindings(f.params, c.args),
        body: f.body,
    }
}

/// The whole output fragment: a grouping scope named after the
/// decorated function, holding the generated functions in case order.
pub open spec fn spec_expand(f: SpecTestFn, cases: Seq<SpecCaseSpec>) -> SpecTestGroup {
    SpecTestGroup { name: f.name, cases: cases.map_values(|c: SpecCaseSpec| spec_generated_case(f, c)) }
}

/// A batch of `N` declared cases expands to a scope under the decorated
/// function's name with exactly `N` generated functions: the one for
/// case `i` is named after case `i`, repeats the forwarded attributes
/// and the original body, and binds each parameter positionally to that
/// case's argument.
pub proof fn lemma_expand_shape(f: SpecTestFn, cases: Seq<SpecCaseSpec>)
    ensures
        spec_expand(f, cases).name == f.name,
        spec_expand(f, cases).cases.len() == cases.len(),
        forall|i: int| 0 <= i < cases.len()
            ==> (#[trigger] spec_expand(f, cases).cases[i]).name == cases[i].name,
        forall|i: int| 0 <= i < cases.len()
            ==> (#[trigger] spec_expand(f, cases).cases[i]).attrs == f.attrs,
        forall|i: int| 0 <= i < cases.len()
            ==> (#[trigger] spec_expand(f, cases).cases[i]).body == f.body,
        forall|i: int| 0 <= i < cases.len()
            ==> (#[trigger] spec_expand(f, cases).cases[i]).bindings
                == spec_bindings(f.params, cases[i].args),
        forall|i: int, k: int|
            0 <= i < cases.len()
                && 0 <= k < spec_min(f.params.len() as int, cases[i].args.len() as int)
            ==> (#[trigger] spec_expand(f, cases).cases[i].bindings[k]).name == f.params[k].name
                && spec_expand(f, cases).cases[i].bindings[k].ty == f.params[k].ty
                && spec_expand(f, cases).cases[i].bindings[k].value == cases[i].args[k],
{
}

/// Builds the binding preamble for one case.
fn make_bindings(params: &Vec<Param>, args: &Vec<Arg>) -> (r: Vec<Binding>)
    ensures
        r@.map_values(|b: Binding| b@) == spec_bindings(
            params@.map_values(|p: Param| p@),
            args@.map_values(|a: Arg| a@),
        ),
{
    let ghost pview = params@.map_values(|p: Param| p@);
    let ghost aview = args@.map_values(|a: Arg| a@);
    let n: usize = if params.len() <= args.len() {
        params.len()
    } else {
        args.len()
    };
    let mut out: Vec<Binding> = Vec::new();
    let mut i: usize = 0;
    while i < n
        invariant
            i <= n,
            n == spec_min(pview.len() as int, aview.len() as int),
            pview == params@.map_values(|p: Param| p@),
            aview == args@.map_values(|a: Arg| a@),
            out@.map_values(|b: Binding| b@) == spec_bindings(pview, aview).take(i as int),
        decreases n - i,
    {
        let binding = Binding {
            name: copy_string(params[i].name.as_str()),
            ty: copy_string(params[i].ty.as_str()),
            value: copy_arg(&args[i]),
        };
        proof {
            assert(binding@ == spec_bindings(pview, aview)[i as int]);
        }
        out.push(binding);
        proof {
            assert(spec_bindings(pview, aview).take(i + 1)
                =~~= spec_bindings(pview, aview).take(i as int).push(binding@));
        }
        i = i + 1;
    }
    proof {
        assert(spec_bindings(pview, aview).take(n as int) =~~= spec_bindings(pview, aview));
    }
    out
}

/// Expands a batch of declared cases into the output fragment: one
/// generated function per case, in case order, wrapped in a scope named
/// after the decorated function.  No arity or type checking happens
/// here; explicit mode defers both to the host compiling the output.
pub fn expand_cases(f: &TestFn, cases: &Vec<CaseSpec>) -> (r: TestGroup)
    ensures
        r@ == spec_expand(f@, cases@.map_values(|c: CaseSpec| c@)),
{
    let ghost cview = cases@.map_values(|c: CaseSpec| c@);
    let mut generated: Vec<GeneratedCase> = Vec::new();
    let mut i: usize = 0;
    while i < cases.len()
        invariant
            i <= cases.len(),
            cview == cases@.map_values(|c: CaseSpec| c@),
            generated@.map_values(|g: GeneratedCase| g@)
                == cview.take(i as int).map_values(|c: SpecCaseSpec| spec_generated_case(f@, c)),
        decreases cases.len() - i,
    {
        let g = GeneratedCase {
            name: copy_string(cases[i].name.as_str()),
            attrs: copy_strings(&f.attrs),
            bindings: make_bindings(&f.params, &cases[i].args),
            body: copy_string(f.body.as_str()),
        };
        proof {
            assert(g@ == spec_generated_case(f@, cview[i as int]));
        }
        generated.push(g);
        proof {
            assert(cview.take(i + 1).map_values(|c: SpecCaseSpec| spec_generated_case(f@, c))
                =~~= cview.take(i as int).map_values(
                    |c: SpecCaseSpec| spec_generated_case(f@, c),
                ).push(g@));
        }
        i = i + 1;
    }
    proof {
        assert(cview.take(cases.len() as int) =~= cview);
    }
    TestGroup { name: copy_string(f.name.as_str()), cases: generated }
}

/// The case a collected file declares: the relative path as a string
/// literal, the file's contents loaded from the absolute path, and the
/// slugified case name.
pub open spec fn spec_case_of_collected(c: SpecCollectedCase) -> SpecCaseSpec {
    SpecCaseSpec {
        args: seq![SpecArg::StrLit(c.rel_path), SpecArg::FileContents(c.abs_path)],
        name: c.case_name,
    }
}

/// The first failing directory of the batch, scanned in declaration
/// order: a missing directory or an unreadable one stops the expansion.
pub open spec fn spec_first_dir_error(dirs: Seq<SpecDirListing>) -> Option<SpecExpandError>
    decreases dirs.len(),
{
    if dirs.len() == 0 {
        Option::None
    } else {
        match dirs.first().listing {
            SpecListing::Missing => Option::Some(
                SpecExpandError::NotFoundError { dir: dirs.first().dir },
            ),
            SpecListing::Unreadable(m) => Option::Some(
                SpecExpandError::IoError { dir: dirs.first().dir, message: m },
            ),
            SpecListing::Entries(_) => spec_first_dir_error(dirs.drop_first()),
        }
    }
}

/// The cases collected over all listed directories, in declaration
/// order, when none of them failed.
pub open spec fn spec_collect_dirs(root: Seq<char>, dirs: Seq<SpecDirListing>) -> Seq<SpecCollectedCase>
    decreases dirs.len(),
{
    if dirs.len() == 0 {
        Seq::empty()
    } else {
        let head = match dirs.first().listing {
            SpecListing::Entries(es) => spec_collect_entries(root, dirs.first().dir, es),
            _ => Seq::empty(),
        };
        head + spec_collect_dirs(root, dirs.drop_first())
    }
}

/// How many files the listed directories hold together.
pub open spec fn spec_total_files(dirs: Seq<SpecDirListing>) -> nat
    decreases dirs.len(),
{
    if dirs.len() == 0 {
        0
    } else {
        (match dirs.first().listing {
            SpecListing::Entries(es) => spec_file_count(es),
            _ => 0,
        }) + spec_total_files(dirs.drop_first())
    }
}

/// One case is collected per file over the union of the listed
/// directories.
pub proof fn lemma_collect_dirs_len(root: Seq<char>, dirs: Seq<SpecDirListing>)
    ensures
        spec_collect_dirs(root, dirs).len() == spec_total_files(dirs),
    decreases dirs.len(),
{
    if dirs.len() > 0 {
        match dirs.first().listing {
            SpecListing::Entries(es) => {
                lemma_collect_entries_len(root, dirs.first().dir, es);
            },
            _ => {},
        }
        lemma_collect_dirs_len(root, dirs.drop_first());
    }
}

/// What a directory-mode expansion returns, for every batch:
/// - a wrong signature is rejected first;
/// - then the first missing or unreadable directory, in declaration
///   order, is reported;
/// - then duplicated case names are reported, all of them, sorted;
/// - otherwise the output holds one generated function per file.
pub open spec fn spec_expand_dirs_result(
    f: SpecTestFn,
    root: Seq<char>,
    dirs: Seq<SpecDirListing>,
    r: Result<SpecTestGroup, SpecExpandError>,
) -> bool {
    let collected = spec_collect_dirs(root, dirs);
    match r {
        Result::Err(e) => match e {
            SpecExpandError::SignatureError => !spec_signature_ok(f.params),
            SpecExpandError::NotFoundError { dir } => spec_signature_ok(f.params)
                && spec_first_dir_error(dirs)
                    == Option::Some(SpecExpandError::NotFoundError { dir }),
            SpecExpandError::IoError { dir, message } => spec_signature_ok(f.params)
                && spec_first_dir_error(dirs)
                    == Option::Some(SpecExpandError::IoError { dir, message }),
            SpecExpandError::DuplicateCaseError { conflicts } => spec_signature_ok(f.params)
                && spec_first_dir_error(dirs) is None
                && conflicts.len() > 0
                && spec_conflicts_ok(collected, conflicts),
        },
        Result::Ok(g) => spec_signature_ok(f.params)
            && spec_first_dir_error(dirs) is None
            && (forall|n: Seq<char>| #[trigger] spec_count_name(collected, n) <= 1)
            && g == spec_expand(f, collected.map_values(|c: SpecCollectedCase| spec_case_of_collected(c)))
            && g.cases.len() == spec_total_files(dirs),
    }
}

/// Scanning past healthy directories does not change the first failure.
proof fn lemma_first_dir_error_skip(dirs: Seq<SpecDirListing>, i: int)
    requires
        0 <= i <= dirs.len(),
        forall|k: int| 0 <= k < i ==> (#[trigger] dirs[k]).listing is Entries,
    ensures
        spec_first_dir_error(dirs) == spec_first_dir_error(dirs.skip(i)),
    decreases i,
{
    if i == 0 {
        assert(dirs.skip(0) =~= dirs);
    } else {
        assert(dirs.first().listing is Entries);
        lemma_first_dir_error_skip(dirs.drop_first(), i - 1);
        assert(dirs.drop_first().skip(i - 1) =~= dirs.skip(i));
    }
}

/// Collection over a prefix of healthy directories grows one directory
/// at a time.
proof fn lemma_collect_dirs_take_step(root: Seq<char>, dirs: Seq<SpecDirListing>, i: int)
    requires
        0 <= i < dirs.len(),
        dirs[i].listing is Entries,
    ensures
        spec_collect_dirs(root, dirs.take(i + 1)) == spec_collect_dirs(root, dirs.take(i))
            + spec_collect_entries(root, dirs[i].dir, dirs[i].listing->Entries_0),
        spec_total_files(dirs.take(i + 1)) == spec_total_files(dirs.take(i))
            + spec_file_count(dirs[i].listing->Entries_0),
    decreases i,
{
    let a = dirs.take(i + 1);
    let b = dirs.take(i);
    let head = spec_collect_entries(root, dirs[i].dir, dirs[i].listing->Entries_0);
    if i == 0 {
        assert(a.first() == dirs[0]);
        assert(a.drop_first() =~= Seq::<SpecDirListing>::empty());
        assert(b =~= Seq::<SpecDirListing>::empty());
        match a.first().listing {
            SpecListing::Entries(es) => {
                assert(es == dirs[0].listing->Entries_0);
                assert(spec_collect_dirs(root, a)
                    == spec_collect_entries(root, a.first().dir, es)
                        + spec_collect_dirs(root, a.drop_first()));
                assert(spec_collect_dirs(root, a.drop_first()).len() == 0);
                assert(spec_collect_dirs(root, a) =~= head);
            },
            _ => {},
        }
        assert(spec_collect_dirs(root, b).len() == 0);
        assert(spec_collect_dirs(root, a) =~= spec_collect_dirs(root, b) + head);
        assert(spec_total_files(a) == spec_total_files(b) + spec_file_count(dirs[i].listing->Entries_0));
    } else {
        lemma_collect_dirs_take_step(root, dirs.drop_first(), i - 1);
        assert(a.drop_first() =~= dirs.drop_first().take(i));
        assert(b.drop_first() =~= dirs.drop_first().take(i - 1));
        assert(a.first() == dirs.first());
        assert(b.first() == dirs.first());
        assert(dirs.drop_first()[i - 1] == dirs[i]);
        match dirs.first().listing {
            SpecListing::Entries(es) => {
                assert(spec_collect_dirs(root, a)
                    == spec_collect_entries(root, dirs.first().dir, es)
                        + spec_collect_dirs(root, a.drop_first()));
                assert(spec_collect_dirs(root, a) =~= spec_collect_dirs(root, b) + head);
            },
            _ => {
                assert(spec_collect_dirs(root, a) =~= spec_collect_dirs(root, b) + head);
            },
        }
    }
}

/// Expands a directory-mode batch: validates the decorated function's
/// shape, collects one case per file over the listed directories,
/// rejects duplicated case names, and generates one function per case.
/// Fail-closed: any failure yields the error alone, never a partial
/// output.
pub fn expand_dirs(f: &TestFn, root: &str, dirs: &Vec<DirListing>) -> (r: Result<TestGroup, ExpandError>)
    ensures
        spec_expand_dirs_result(
            f@,
            root@,
            dirs@.map_values(|d: DirListing| d@),
            match r {
                Result::Ok(g) => Result::Ok(g@),
                Result::Err(e) => Result::Err(e@),
            },
        ),
{
    let ghost dview = dirs@.map_values(|d: DirListing| d@);
    if !signature_ok(&f.params) {
        return Result::Err(ExpandError::SignatureError);
    }
    let mut collected: Vec<CollectedCase> = Vec::new();
    let mut i: usize = 0;
    while i < dirs.len()
        invariant
            i <= dirs.len(),
            spec_signature_ok(f@.params),
            dview == dirs@.map_values(|d: DirListing| d@),
            forall|k: int| 0 <= k < i ==> (#[trigger] dview[k]).listing is Entries,
            collected@.map_values(|c: CollectedCase| c@)
                == spec_collect_dirs(root@, dview.take(i as int)),
        decreases dirs.len() - i,
    {
        proof {
            assert(dview[i as int] == dirs@[i as int]@);
        }
        let entry = &dirs[i];
        match &entry.listing {
            Listing::Missing => {
                proof {
                    lemma_first_dir_error_skip(dview, i as int);
                    assert(dview.skip(i as int).first() == dview[i as int]);
                }
                return Result::Err(ExpandError::NotFoundError {
                    dir: copy_string(entry.dir.as_str()),
                });
            },
            Listing::Unreadable(message) => {
                proof {
                    lemma_first_dir_error_skip(dview, i as int);
                    assert(dview.skip(i as int).first() == dview[i as int]);
                }
                return Result::Err(ExpandError::IoError {
                    dir: copy_string(entry.dir.as_str()),
                    message: copy_string(message.as_str()),
                });
            },
            Listing::Entries(entries) => {
                let mut cases = collect_entries(root, entry.dir.as_str(), entries);
                proof {
                    lemma_collect_dirs_take_step(root@, dview, i as int);
                }
                collected.append(&mut cases);
                proof {
                    assert(collected@.map_values(|c: CollectedCase| c@)
                        =~= spec_collect_dirs(root@, dview.take(i + 1)));
                }
            },
        }
        i = i + 1;
    }
    proof {
        assert(dview.take(dirs.len() as int) =~= dview);
        lemma_first_dir_error_skip(dview, dview.len() as int);
        assert(dview.skip(dview.len() as int) =~= Seq::<SpecDirListing>::empty());
    }
    let ghost cview = collected@.map_values(|c: CollectedCase| c@);
    let conflicts = find_conflicts(&collected);
    if conflicts.len() > 0 {
        return Result::Err(ExpandError::DuplicateCaseError { conflicts });
    }
    proof {
        // an empty conflict listing means every name occurs at most once
        assert forall|n: Seq<char>| #[trigger] spec_count_name(cview, n) <= 1 by {
            if spec_count_name(cview, n) >= 2 {
                let csv = conflicts@.map_values(|c: Conflict| c@);
                assert(exists|j: int| 0 <= j < csv.len() && (#[trigger] csv[j]).case_name == n);
            }
        }
    }
    let mut case_specs: Vec<CaseSpec> = Vec::new();
    let mut k: usize = 0;
    while k < collected.len()
        invariant
            k <= collected.len(),
            cview == collected@.map_values(|c: CollectedCase| c@),
            case_specs@.map_values(|c: CaseSpec| c@)
                == cview.take(k as int).map_values(|c: SpecCollectedCase| spec_case_of_collected(c)),
        decreases collected.len() - k,
    {
        let mut args: Vec<Arg> = Vec::new();
        args.push(Arg::StrLit(copy_string(collected[k].rel_path.as_str())));
        args.push(Arg::FileContents(copy_string(collected[k].abs_path.as_str())));
        let case = CaseSpec { args, name: copy_string(collected[k].case_name.as_str()) };
        proof {
            assert(case@.args =~= spec_case_of_collected(cview[k as int]).args);
            assert(case@ == spec_case_of_collected(cview[k as int]));
        }
        case_specs.push(case);
        proof {
            assert(cview.take(k + 1).map_values(|c: SpecCollectedCase| spec_case_of_collected(c))
                =~~= cview.take(k as int).map_values(
                    |c: SpecCollectedCase| spec_case_of_collected(c),
                ).push(case@));
        }
        k = k + 1;
    }
    proof {
        assert(cview.take(collected.len() as int) =~= cview);
    }
    let group = expand_cases(f, &case_specs);
    proof {
        lemma_collect_dirs_len(root@, dview);
    }
    Result::Ok(group)
}

} // verus!
