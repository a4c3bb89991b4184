use simple_test_case::collect::{collect_entries, file_count, DirListing, FileEntry, Listing};
use simple_test_case::error::{diagnostic_message, ExpandError};
use simple_test_case::expand::{expand_cases, expand_dirs};
use simple_test_case::model::{Arg, CaseSpec, Param, TestFn};
use simple_test_case::slug::{base_name, case_name_of, slugify};
use simple_test_case::validate::{find_conflicts, signature_ok, str_lex_le};

fn s(x: &str) -> String {
    x.to_string()
}

fn param(name: &str, ty: &str) -> Param {
    Param { name: s(name), ty: s(ty) }
}

fn str_fn(name: &str) -> TestFn {
    TestFn {
        name: s(name),
        params: vec![param("path", "&str"), param("contents", "&str")],
        attrs: vec![s("#[test]")],
        body: s("{ run(path, contents) }"),
    }
}

fn file(name: &str) -> FileEntry {
    FileEntry { name: s(name), is_file: true }
}

fn subdir(name: &str) -> FileEntry {
    FileEntry { name: s(name), is_file: false }
}

fn dir(path: &str, entries: Vec<FileEntry>) -> DirListing {
    DirListing { dir: s(path), listing: Listing::Entries(entries) }
}

#[test]
fn slugify_keeps_identifier_characters() {
    assert_eq!(slugify("foo"), "foo");
    assert_eq!(slugify("abc_123"), "abc_123");
    assert_eq!(slugify("CamelCase9"), "CamelCase9");
}

#[test]
fn slugify_replaces_other_characters() {
    assert_eq!(slugify("bar-with-dashes"), "bar_with_dashes");
    assert_eq!(slugify("a b.c"), "a_b_c");
    assert_eq!(slugify("naïve"), "na_ve");
    assert_eq!(slugify(""), "");
}

#[test]
fn slugify_is_idempotent_on_samples() {
    for input in ["foo", "bar-with-dashes", "a b.c", "", "x---y", "ü", "1+1=2"] {
        let once = slugify(input);
        let twice = slugify(&once);
        assert_eq!(twice, once);
    }
}

#[test]
fn base_name_strips_one_extension() {
    assert_eq!(base_name("foo.txt"), "foo");
    assert_eq!(base_name("a.b.c"), "a.b");
    assert_eq!(base_name("noext"), "noext");
    assert_eq!(base_name("trailing."), "trailing");
    assert_eq!(base_name(".gitignore"), ".gitignore");
}

#[test]
fn case_name_slugs_the_base_name() {
    assert_eq!(case_name_of("bar-with-dashes.json"), "bar_with_dashes");
    assert_eq!(case_name_of("foo.txt"), "foo");
    assert_eq!(case_name_of("baz_with_underscores.yaml"), "baz_with_underscores");
}

#[test]
fn lexicographic_order_on_strings() {
    assert!(str_lex_le("abc", "abd"));
    assert!(str_lex_le("ab", "abc"));
    assert!(str_lex_le("", "a"));
    assert!(str_lex_le("same", "same"));
    assert!(!str_lex_le("b", "ab"));
}

#[test]
fn signature_check_wants_two_string_slices() {
    assert!(signature_ok(&vec![param("path", "&str"), param("contents", "&str")]));
    assert!(!signature_ok(&vec![param("path", "&str")]));
    assert!(!signature_ok(&vec![
        param("path", "&str"),
        param("contents", "&str"),
        param("extra", "&str"),
    ]));
    assert!(!signature_ok(&vec![param("path", "&str"), param("n", "usize")]));
}

#[test]
fn explicit_cases_expand_to_named_functions() {
    // the decorated function f(n, doubled) with two explicit cases
    let f = TestFn {
        name: s("f"),
        params: vec![param("n", "int"), param("doubled", "int")],
        attrs: vec![s("#[test]")],
        body: s("{ assert_eq!(double(n), doubled) }"),
    };
    let cases = vec![
        CaseSpec { args: vec![Arg::Fragment(s("1")), Arg::Fragment(s("2"))], name: s("one") },
        CaseSpec { args: vec![Arg::Fragment(s("3")), Arg::Fragment(s("6"))], name: s("two") },
    ];
    let group = expand_cases(&f, &cases);
    assert_eq!(group.name, "f");
    assert_eq!(group.cases.len(), 2);
    assert_eq!(group.cases[0].name, "one");
    assert_eq!(group.cases[1].name, "two");
    for (generated, case) in group.cases.iter().zip(cases.iter()) {
        assert_eq!(generated.body, f.body);
        assert_eq!(generated.attrs, vec![s("#[test]")]);
        assert_eq!(generated.bindings.len(), 2);
        for (k, binding) in generated.bindings.iter().enumerate() {
            assert_eq!(binding.name, f.params[k].name);
            assert_eq!(binding.ty, f.params[k].ty);
            match (&binding.value, &case.args[k]) {
                (Arg::Fragment(got), Arg::Fragment(want)) => assert_eq!(got, want),
                _ => panic!("unexpected argument kind"),
            }
        }
    }
}

#[test]
fn explicit_expansion_keeps_case_count_and_order() {
    let f = TestFn {
        name: s("group"),
        params: vec![param("x", "u8")],
        attrs: vec![],
        body: s("{}"),
    };
    let mut cases = Vec::new();
    for name in ["c", "a", "b", "d", "e"] {
        cases.push(CaseSpec { args: vec![Arg::Fragment(s("0"))], name: s(name) });
    }
    let group = expand_cases(&f, &cases);
    assert_eq!(group.cases.len(), 5);
    let names: Vec<&str> = group.cases.iter().map(|c| c.name.as_str()).collect();
    assert_eq!(names, vec!["c", "a", "b", "d", "e"]);
}

#[test]
fn directory_expansion_generates_one_function_per_file() {
    let f = str_fn("g");
    let dirs = vec![dir(
        "resources/my-test-data",
        vec![file("foo.txt"), file("bar-with-dashes.json"), subdir("nested")],
    )];
    let group = expand_dirs(&f, "/work", &dirs).expect("expansion should succeed");
    assert_eq!(group.name, "g");
    assert_eq!(group.cases.len(), 2);
    assert_eq!(group.cases[0].name, "foo");
    assert_eq!(group.cases[1].name, "bar_with_dashes");
    let first = &group.cases[0];
    assert_eq!(first.bindings.len(), 2);
    assert_eq!(first.bindings[0].name, "path");
    match &first.bindings[0].value {
        Arg::StrLit(p) => assert_eq!(p, "resources/my-test-data/foo.txt"),
        _ => panic!("path should be a string literal"),
    }
    assert_eq!(first.bindings[1].name, "contents");
    match &first.bindings[1].value {
        Arg::FileContents(p) => assert_eq!(p, "/work/resources/my-test-data/foo.txt"),
        _ => panic!("contents should load the file"),
    }
    assert_eq!(first.attrs, vec![s("#[test]")]);
    assert_eq!(first.body, f.body);
}

#[test]
fn directory_count_spans_the_union_of_directories() {
    let f = str_fn("g");
    let dirs = vec![
        dir("one", vec![file("a.txt"), file("b.txt")]),
        dir("two", vec![file("c.txt"), subdir("skip-me"), file("d.txt")]),
    ];
    let group = expand_dirs(&f, "/root", &dirs).expect("expansion should succeed");
    assert_eq!(group.cases.len(), 4);
    let names: Vec<&str> = group.cases.iter().map(|c| c.name.as_str()).collect();
    assert_eq!(names, vec!["a", "b", "c", "d"]);
}

#[test]
fn empty_directory_yields_an_empty_group() {
    let f = str_fn("g");
    let dirs = vec![dir("empty", vec![])];
    let group = expand_dirs(&f, "/root", &dirs).expect("an empty directory is not an error");
    assert_eq!(group.name, "g");
    assert_eq!(group.cases.len(), 0);
}

#[test]
fn duplicate_names_across_directories_fail() {
    let f = str_fn("g");
    let dirs = vec![
        dir("one", vec![file("same.txt")]),
        dir("two", vec![file("same.json")]),
    ];
    match expand_dirs(&f, "/root", &dirs) {
        Err(ExpandError::DuplicateCaseError { conflicts }) => {
            assert_eq!(conflicts.len(), 1);
            assert_eq!(conflicts[0].case_name, "same");
            assert_eq!(conflicts[0].rel_paths, vec![s("one/same.txt"), s("two/same.json")]);
        }
        _ => panic!("expansion should fail on a duplicated case name"),
    }
}

#[test]
fn distinct_names_across_directories_succeed() {
    let f = str_fn("g");
    let dirs = vec![
        dir("one", vec![file("first.txt")]),
        dir("two", vec![file("second.txt")]),
    ];
    let group = expand_dirs(&f, "/root", &dirs).expect("no overlap, no failure");
    let names: Vec<&str> = group.cases.iter().map(|c| c.name.as_str()).collect();
    assert_eq!(names, vec!["first", "second"]);
}

#[test]
fn conflicts_are_sorted_by_case_name() {
    let f = str_fn("g");
    let dirs = vec![
        dir("one", vec![file("zeta.txt"), file("alpha.txt")]),
        dir("two", vec![file("zeta.json"), file("alpha.json")]),
    ];
    match expand_dirs(&f, "/root", &dirs) {
        Err(ExpandError::DuplicateCaseError { conflicts }) => {
            assert_eq!(conflicts.len(), 2);
            assert_eq!(conflicts[0].case_name, "alpha");
            assert_eq!(conflicts[1].case_name, "zeta");
        }
        _ => panic!("expansion should fail on duplicated case names"),
    }
}

#[test]
fn wrong_signature_fails_regardless_of_contents() {
    let mut f = str_fn("g");
    f.params.push(param("extra", "&str"));
    let dirs = vec![DirListing { dir: s("missing"), listing: Listing::Missing }];
    match expand_dirs(&f, "/root", &dirs) {
        Err(ExpandError::SignatureError) => {}
        _ => panic!("the shape check comes first"),
    }
    let f2 = TestFn {
        name: s("g"),
        params: vec![param("path", "&str"), param("n", "usize")],
        attrs: vec![],
        body: s("{}"),
    };
    let dirs2 = vec![dir("one", vec![file("a.txt")])];
    match expand_dirs(&f2, "/root", &dirs2) {
        Err(ExpandError::SignatureError) => {}
        _ => panic!("a non-string parameter fails the shape check"),
    }
}

#[test]
fn missing_directory_fails_closed() {
    let f = str_fn("g");
    let dirs = vec![
        dir("good", vec![file("a.txt")]),
        DirListing { dir: s("gone"), listing: Listing::Missing },
    ];
    match expand_dirs(&f, "/root", &dirs) {
        Err(ExpandError::NotFoundError { dir }) => assert_eq!(dir, "gone"),
        _ => panic!("a missing directory must fail the whole expansion"),
    }
}

#[test]
fn unreadable_directory_reports_the_host_error() {
    let f = str_fn("g");
    let dirs = vec![DirListing {
        dir: s("locked"),
        listing: Listing::Unreadable(s("permission denied (os error 13)")),
    }];
    match expand_dirs(&f, "/root", &dirs) {
        Err(ExpandError::IoError { dir, message }) => {
            assert_eq!(dir, "locked");
            assert_eq!(message, "permission denied (os error 13)");
        }
        _ => panic!("an unreadable directory must fail the whole expansion"),
    }
}

#[test]
fn diagnostic_messages_match_the_failure() {
    assert_eq!(
        diagnostic_message(&ExpandError::SignatureError),
        "dir_cases test functions must accept (path: &str, contents: &str) as arguments",
    );
    assert_eq!(
        diagnostic_message(&ExpandError::NotFoundError { dir: s("fixtures") }),
        "Error loading test cases: fixtures is not a known directory",
    );
    assert_eq!(
        diagnostic_message(&ExpandError::IoError {
            dir: s("fixtures"),
            message: s("permission denied"),
        }),
        "Error loading test cases: permission denied",
    );
}

#[test]
fn duplicate_diagnostic_lists_names_and_paths() {
    let f = str_fn("g");
    let dirs = vec![
        dir("one", vec![file("same.txt")]),
        dir("two", vec![file("same.json")]),
    ];
    let err = expand_dirs(&f, "/root", &dirs).expect_err("duplicated names must fail");
    let message = diagnostic_message(&err);
    let expected = "When using dir_cases with multiple directories you must ensure that all file\n\
                    names within the specified directories are unique.\n\
                    \n\
                    The following test cases are defined multiple times,\n\
                    \n\
                    same:\n\
                    \x20 one/same.txt\n\
                    \x20 two/same.json";
    assert_eq!(message, expected);
}

#[test]
fn no_conflicts_in_a_batch_of_distinct_names() {
    let f = str_fn("g");
    let dirs = vec![dir("one", vec![file("a.txt"), file("b.txt")])];
    let group = expand_dirs(&f, "/root", &dirs).expect("distinct names succeed");
    assert_eq!(group.cases.len(), 2);
    let conflicts = find_conflicts(&Vec::new());
    assert_eq!(conflicts.len(), 0);
}

#[test]
fn same_directory_duplicate_slugs_conflict() {
    // two different files of one directory may slugify to the same name
    let f = str_fn("g");
    let dirs = vec![dir("one", vec![file("a-b.txt"), file("a b.txt")])];
    match expand_dirs(&f, "/root", &dirs) {
        Err(ExpandError::DuplicateCaseError { conflicts }) => {
            assert_eq!(conflicts.len(), 1);
            assert_eq!(conflicts[0].case_name, "a_b");
            assert_eq!(conflicts[0].rel_paths.len(), 2);
        }
        _ => panic!("colliding slugs must fail"),
    }
}

#[test]
fn file_count_ignores_subdirectories() {
    let entries = vec![file("a.txt"), subdir("d"), file("b.txt")];
    assert_eq!(file_count(&entries), 2);
    assert_eq!(file_count(&Vec::new()), 0);
}

#[test]
fn collected_cases_carry_paths_and_names() {
    let entries = vec![file("x-y.txt"), subdir("d")];
    let cases = collect_entries("/r", "fixtures", &entries);
    assert_eq!(cases.len(), 1);
    assert_eq!(cases[0].rel_path, "fixtures/x-y.txt");
    assert_eq!(cases[0].abs_path, "/r/fixtures/x-y.txt");
    assert_eq!(cases[0].case_name, "x_y");
}
