//! Turning directory listings into collected cases.
//!
//! The file system itself is out of scope: a host layer enumerates each
//! declared directory and hands the outcome in as a [`Listing`] of plain
//! values.  Collection then derives, for every file of a listing, the
//! file's relative path, its absolute path and its slugified case name.

use vstd::prelude::*;
use crate::slug::{spec_case_name, case_name_of};
use crate::strutil::{spec_join_sep, join_sep};

verus! {

/// One entry of a directory listing, as the host enumerated it.
#[derive(Debug)]
pub struct FileEntry {
    pub name: String,
    pub is_file: bool,
}

/// The view of a [`FileEntry`].
#[verifier::ext_equal]
pub ghost struct SpecFileEntry {
    pub name: Seq<char>,
    pub is_file: bool,
}

impl View for FileEntry {
    type V = SpecFileEntry;

    open spec fn view(&self) -> SpecFileEntry {
        SpecFileEntry { name: self.name@, is_file: self.is_file }
    }
}

/// What enumerating a declared directory produced.
#[derive(Debug)]
pub enum Listing {
    /// The directory does not exist.
    Missing,
    /// The directory exists but could not be read; the host's error text.
    Unreadable(String),
    /// The directory's immediate entries, in enumeration order.
    Entries(Vec<FileEntry>),
}

/// The view of a [`Listing`].
#[verifier::ext_equal]
pub ghost enum SpecListing {
    Missing,
    Unreadable(Seq<char>),
    Entries(Seq<SpecFileEntry>),
}

impl View for Listing {
    type V = SpecListing;

    open spec fn view(&self) -> SpecListing {
        match self {
            Listing::Missing => SpecListing::Missing,
            Listing::Unreadable(m) => SpecListing::Unreadable(m@),
            Listing::Entries(es) => SpecListing::Entries(es@.map_values(|e: FileEntry| e@)),
        }
    }
}

/// A declared directory path together with its listing.
#[derive(Debug)]
pub struct DirListing {
    pub dir: String,
    pub listing: Listing,
}

/// The view of a [`DirListing`].
#[verifier::ext_equal]
pub ghost struct SpecDirListing {
    pub dir: Seq<char>,
    pub listing: SpecListing,
}

impl View for DirListing {
    type V = SpecDirListing;

    open spec fn view(&self) -> SpecDirListing {
        SpecDirListing { dir: self.dir@, listing: self.listing@ }
    }
}

/// One collected case: where the file sits relative to the declared
/// directory, where it sits under the project root, and the case name
/// its base name slugifies to.
#[derive(Debug)]
pub struct CollectedCase {
    pub rel_path: String,
    pub abs_path: String,
    pub case_name: String,
}

/// The view of a [`CollectedCase`].
#[verifier::ext_equal]
pub ghost struct SpecCollectedCase {
    pub rel_path: Seq<char>,
    pub abs_path: Seq<char>,
    pub case_name: Seq<char>,
}

impl View for CollectedCase {
    type V = SpecCollectedCase;

    open spec fn view(&self) -> SpecCollectedCase {
        SpecCollectedCase {
            rel_path: self.rel_path@,
            abs_path: self.abs_path@,
            case_name: self.case_name@,
        }
    }
}

/// The case collected for one file: paths are joined with a `/`
/// separator, and the case name is the slug of the file's base name.
pub open spec fn spec_collected(root: Seq<char>, dir: Seq<char>, fname: Seq<char>) -> SpecCollectedCase {
    let rel = spec_join_sep(dir, '/', fname);
    SpecCollectedCase {
        rel_path: rel,
        abs_path: spec_join_sep(root, '/', rel),
        case_name: spec_case_name(fname),
    }
}

/// The cases collected from the entries of one directory: one per entry
/// that is a file, in enumeration order; subdirectories contribute
/// nothing.
pub open spec fn spec_collect_entries(root: Seq<char>, dir: Seq<char>, entries: Seq<SpecFileEntry>) -> Seq<SpecCollectedCase>
    decreases entries.len(),
{
    if entries.len() == 0 {
        Seq::empty()
    } else {
        let rest = spec_collect_entries(root, dir, entries.drop_last());
        if entries.last().is_file {
            rest.push(spec_collected(root, dir, entries.last().name))
        } else {
            rest
        }
    }
}

/// How many of the entries are files.
pub open spec fn spec_file_count(entries: Seq<SpecFileEntry>) -> nat
    decreases entries.len(),
{
    if entries.len() == 0 {
        0
    } else {
        spec_file_count(entries.drop_last()) + if entries.last().is_file {
            1nat
        } else {
            0nat
        }
    }
}

/// One case is collected for each file of the listing, never for a
/// subdirectory.
pub proof fn lemma_collect_entries_len(root: Seq<char>, dir: Seq<char>, entries: Seq<SpecFileEntry>)
    ensures
        spec_collect_entries(root, dir, entries).len() == spec_file_count(entries),
    decreases entries.len(),
{
    if entries.len() > 0 {
        lemma_collect_entries_len(root, dir, entries.drop_last());
    }
}

/// Collects the cases of one directory's entries: for each entry that is
/// a file, its relative path, its absolute path and its case name.
pub fn collect_entries(root: &str, dir: &str, entries: &Vec<FileEntry>) -> (r: Vec<CollectedCase>)
    ensures
        r@.map_values(|c: CollectedCase| c@)
            == spec_collect_entries(root@, dir@, entries@.map_values(|e: FileEntry| e@)),
{
    let ghost eview = entries@.map_values(|e: FileEntry| e@);
    let mut out: Vec<CollectedCase> = Vec::new();
    let mut i: usize = 0;
    while i < entries.len()
        invariant
            i <= entries.len(),
            eview == entries@.map_values(|e: FileEntry| e@),
            out@.map_values(|c: CollectedCase| c@)
                == spec_collect_entries(root@, dir@, eview.take(i as int)),
        decreases entries.len() - i,
    {
        let entry = &entries[i];
        if entry.is_file {
            let rel_path = join_sep(dir, '/', entry.name.as_str());
            let abs_path = join_sep(root, '/', rel_path.as_str());
            let case_name = case_name_of(entry.name.as_str());
            let collected = CollectedCase { rel_path, abs_path, case_name };
            proof {
                assert(collected@ == spec_collected(root@, dir@, eview[i as int].name));
            }
            out.push(collected);
        }
        proof {
            assert(eview.take(i + 1).drop_last() =~= eview.take(i as int));
            assert(eview.take(i + 1).last() == eview[i as int]);
            if entry.is_file {
                assert(out@.map_values(|c: CollectedCase| c@)
                    =~= spec_collect_entries(root@, dir@, eview.take(i as int)).push(
                        spec_collected(root@, dir@, eview[i as int].name)));
            }
        }
        i = i + 1;
    }
    proof {
        assert(eview.take(entries.len() as int) =~= eview);
    }
    out
}

/// Counts the files of a listing's entries.
pub fn file_count(entries: &Vec<FileEntry>) -> (r: usize)
    ensures
        r == spec_file_count(entries@.map_values(|e: FileEntry| e@)),
{
    let ghost eview = entries@.map_values(|e: FileEntry| e@);
    let mut count: usize = 0;
    let mut i: usize = 0;
    while i < entries.len()
        invariant
            i <= entries.len(),
            count <= i,
            eview == entries@.map_values(|e: FileEntry| e@),
            count == spec_file_count(eview.take(i as int)),
        decreases entries.len() - i,
    {
        proof {
            assert(eview.take(i + 1).drop_last() =~= eview.take(i as int));
        }
        if entries[i].is_file {
            count = count + 1;
        }
        i = i + 1;
    }
    proof {
        assert(eview.take(entries.len() as int) =~= eview);
    }
    count
}

} // verus!
