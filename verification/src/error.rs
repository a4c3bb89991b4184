//! Expansion failures and their diagnostic messages.
//!
//! Every failure replaces the whole expansion output with one
//! diagnostic; the host anchors it at the attribute's source location.
//! The message text is fully specified, down to the sorted listing of
//! duplicated case names with their contributing paths.

use vstd::prelude::*;
use crate::validate::{Conflict, SpecConflict};

verus! {

/// Why an expansion batch was rejected.
#[derive(Debug)]
pub enum ExpandError {
    /// Directory mode asks the decorated function for exactly two
    /// string-slice parameters.
    SignatureError,
    /// A declared directory does not exist.
    NotFoundError { dir: String },
    /// A declared directory exists but could not be read.
    IoError { dir: String, message: String },
    /// The same case name was produced by more than one file.
    DuplicateCaseError { conflicts: Vec<Conflict> },
}

/// The view of an [`ExpandError`].
#[verifier::ext_equal]
pub ghost enum SpecExpandError {
    SignatureError,
    NotFoundError { dir: Seq<char> },
    IoError { dir: Seq<char>, message: Seq<char> },
    DuplicateCaseError { conflicts: Seq<SpecConflict> },
}

impl View for ExpandError {
    type V = SpecExpandError;

    open spec fn view(&self) -> SpecExpandError {
        match self {
            ExpandError::SignatureError => SpecExpandError::SignatureError,
            ExpandError::NotFoundError { dir } => SpecExpandError::NotFoundError { dir: dir@ },
            ExpandError::IoError { dir, message } => SpecExpandError::IoError {
                dir: dir@,
                message: message@,
            },
            ExpandError::DuplicateCaseError { conflicts } => SpecExpandError::DuplicateCaseError {
                conflicts: conflicts@.map_values(|c: Conflict| c@),
            },
        }
    }
}

/// The lines listing one conflicting name's contributing paths, each
/// indented by two spaces.
pub open spec fn spec_path_lines(paths: Seq<Seq<char>>) -> Seq<char>
    decreases paths.len(),
{
    if paths.len() == 0 {
        Seq::empty()
    } else if paths.len() == 1 {
        "  "@ + paths[0]
    } else {
        spec_path_lines(paths.drop_last()) + "\n  "@ + paths.last()
    }
}

/// The paragraph for one conflict: the case name, a colon, and the
/// contributing paths one per line.
pub open spec fn spec_conflict_block(c: SpecConflict) -> Seq<char> {
    c.case_name + ":\n"@ + spec_path_lines(c.rel_paths)
}

/// All conflict paragraphs, separated by blank lines.
pub open spec fn spec_conflict_blocks(cs: Seq<SpecConflict>) -> Seq<char>
    decreases cs.len(),
{
    if cs.len() == 0 {
        Seq::empty()
    } else if cs.len() == 1 {
        spec_conflict_block(cs[0])
    } else {
        spec_conflict_blocks(cs.drop_last()) + "\n\n"@ + spec_conflict_block(cs.last())
    }
}

/// The preamble of the duplicate-case diagnostic.
pub open spec fn spec_duplicate_header() -> Seq<char> {
    "When using dir_cases with multiple directories you must ensure that all file\nnames within the specified directories are unique.\n\nThe following test cases are defined multiple times,\n"@
}

/// The full diagnostic text for a failure.
pub open spec fn spec_message(e: SpecExpandError) -> Seq<char> {
    match e {
        SpecExpandError::SignatureError =>
            "dir_cases test functions must accept (path: &str, contents: &str) as arguments"@,
        SpecExpandError::NotFoundError { dir } =>
            "Error loading test cases: "@ + dir + " is not a known directory"@,
        SpecExpandError::IoError { dir, message } => "Error loading test cases: "@ + message,
        SpecExpandError::DuplicateCaseError { conflicts } =>
            spec_duplicate_header() + "\n"@ + spec_conflict_blocks(conflicts),
    }
}

/// Appends one conflict's path lines to the message being built.
fn append_path_lines(m: &mut String, paths: &Vec<String>)
    ensures
        final(m)@ == old(m)@ + spec_path_lines(paths@.map_values(|p: String| p@)),
{
    let ghost pview = paths@.map_values(|p: String| p@);
    let ghost m0 = old(m)@;
    let mut k: usize = 0;
    while k < paths.len()
        invariant
            k <= paths.len(),
            pview == paths@.map_values(|p: String| p@),
            m@ == m0 + spec_path_lines(pview.take(k as int)),
        decreases paths.len() - k,
    {
        proof {
            assert(pview.take(k + 1).drop_last() =~= pview.take(k as int));
            assert(pview.take(k + 1).last() == pview[k as int]);
        }
        if k > 0 {
            m.append("\n  ");
        } else {
            m.append("  ");
        }
        m.append(paths[k].as_str());
        proof {
            assert(m@ =~= m0 + spec_path_lines(pview.take(k + 1)));
        }
        k = k + 1;
    }
    proof {
        assert(pview.take(paths.len() as int) =~= pview);
        assert(m@ =~= m0 + spec_path_lines(pview));
    }
}

/// Appends one conflict's paragraph to the message being built.
fn append_conflict_block(m: &mut String, c: &Conflict)
    ensures
        final(m)@ == old(m)@ + spec_conflict_block(c@),
{
    let ghost m0 = old(m)@;
    m.append(c.case_name.as_str());
    m.append(":\n");
    append_path_lines(m, &c.rel_paths);
    proof {
        assert(m@ =~= m0 + spec_conflict_block(c@));
    }
}

/// Appends every conflict paragraph, separated by blank lines.
fn append_conflict_blocks(m: &mut String, cs: &Vec<Conflict>)
    ensures
        final(m)@ == old(m)@ + spec_conflict_blocks(cs@.map_values(|c: Conflict| c@)),
{
    let ghost cview = cs@.map_values(|c: Conflict| c@);
    let ghost m0 = old(m)@;
    let mut i: usize = 0;
    while i < cs.len()
        invariant
            i <= cs.len(),
            cview == cs@.map_values(|c: Conflict| c@),
            m@ == m0 + spec_conflict_blocks(cview.take(i as int)),
        decreases cs.len() - i,
    {
        proof {
            assert(cview.take(i + 1).drop_last() =~= cview.take(i as int));
            assert(cview.take(i + 1).last() == cview[i as int]);
        }
        if i > 0 {
            m.append("\n\n");
        }
        append_conflict_block(m, &cs[i]);
        proof {
            assert(m@ =~= m0 + spec_conflict_blocks(cview.take(i + 1)));
        }
        i = i + 1;
    }
    proof {
        assert(cview.take(cs.len() as int) =~= cview);
        assert(m@ =~= m0 + spec_conflict_blocks(cview));
    }
}

/// The diagnostic text reported for a failure, exactly as specified by
/// [`spec_message`].
pub fn diagnostic_message(e: &ExpandError) -> (r: String)
    ensures
        r@ == spec_message(e@),
{
    match e {
        ExpandError::SignatureError => {
            "dir_cases test functions must accept (path: &str, contents: &str) as arguments"
                .to_owned()
        },
        ExpandError::NotFoundError { dir } => {
            let mut m = "Error loading test cases: ".to_owned();
            m.append(dir.as_str());
            m.append(" is not a known directory");
            proof {
                assert(m@ =~= spec_message(e@));
            }
            m
        },
        ExpandError::IoError { dir: _, message } => {
            let mut m = "Error loading test cases: ".to_owned();
            m.append(message.as_str());
            proof {
                assert(m@ =~= spec_message(e@));
            }
            m
        },
        ExpandError::DuplicateCaseError { conflicts } => {
            let mut m =
                "When using dir_cases with multiple directories you must ensure that all file\nnames within the specified directories are unique.\n\nThe following test cases are defined multiple times,\n"
                .to_owned();
            m.append("\n");
            append_conflict_blocks(&mut m, conflicts);
            proof {
                assert(m@ =~= spec_message(e@));
            }
            m
        },
    }
}

} // verus!
