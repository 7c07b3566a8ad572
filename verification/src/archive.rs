//! Decisions about archives that need no file access: recognising the 7z
//! signature in a file's first bytes, and deciding from an archive's entry
//! listing whether smart-mode extraction should create a wrapping folder.

use vstd::prelude::*;
use vstd::string::StrSliceExecFns;

verus! {

/// The buffer is longer than five bytes and starts with the 7z file
/// signature `37 7A BC AF 27 1C`.
pub open spec fn is_7z_signature(b: Seq<u8>) -> bool {
    &&& b.len() > 5
    &&& b[0] == 0x37
    &&& b[1] == 0x7a
    &&& b[2] == 0xbc
    &&& b[3] == 0xaf
    &&& b[4] == 0x27
    &&& b[5] == 0x1c
}

/// Relies on `infer::archive::is_7z`: it returns true exactly when the buffer
/// is longer than five bytes and its first six bytes are `37 7A BC AF 27 1C`.
#[verifier::external_body]
fn sniff_7z(buf: &[u8]) -> (r: bool)
    ensures
        r == is_7z_signature(buf@),
{
    infer::archive::is_7z(buf)
}

/// Decide whether `header`, the first bytes read from a file, marks a 7z
/// archive.
pub fn is_7z_header(header: &[u8]) -> (r: bool)
    ensures
        r == is_7z_signature(header@),
{
    sniff_7z(header)
}

/// One entry of an archive's listing, reduced to what the extraction rules
/// read: its path inside the archive and whether it is a directory.
pub struct ArchiveEntry {
    pub name: String,
    pub is_directory: bool,
}

/// An entry name with no `/` separator: the entry sits at the archive root.
pub open spec fn is_root_name(name: Seq<char>) -> bool {
    !name.contains('/')
}

/// The entry sits at the archive root and is a directory (when `dir` is true)
/// or a plain file (when `dir` is false).
pub open spec fn is_root_entry(e: ArchiveEntry, dir: bool) -> bool {
    e.is_directory == dir && is_root_name(e.name@)
}

/// How many entries of the listing sit at the archive root, counting
/// directories when `dir` is true and plain files otherwise.
pub open spec fn count_root_entries(s: Seq<ArchiveEntry>, dir: bool) -> nat
    decreases s.len(),
{
    if s.len() == 0 {
        0
    } else {
        count_root_entries(s.drop_last(), dir) + if is_root_entry(s.last(), dir) {
            1nat
        } else {
            0nat
        }
    }
}

/// Smart mode wraps the extracted files in a folder of their own exactly when
/// the archive has more than one root file or more than one root directory.
pub open spec fn smart_mode_creates_folder(s: Seq<ArchiveEntry>) -> bool {
    count_root_entries(s, false) > 1 || count_root_entries(s, true) > 1
}

/// Whether the entry's name keeps it at the archive root.
fn name_is_root(name: &String) -> (r: bool)
    ensures
        r == is_root_name(name@),
{
    let s: &str = name.as_str();
    let n: usize = s.unicode_len();
    let mut i: usize = 0;
    while i < n
        invariant
            n == s@.len(),
            s@ == name@,
            i <= n,
            forall|j: int| 0 <= j < i ==> s@[j] != '/',
        decreases n - i,
    {
        if s.get_char(i) == '/' {
            proof {
                assert(name@.contains('/')) by {
                    assert(name@[i as int] == '/');
                }
            }
            return false;
        }
        i += 1;
    }
    true
}

/// Decide from an archive's entry listing whether smart-mode extraction
/// should create a wrapping folder: it should when the archive would
/// otherwise spill more than one root file or more than one root directory
/// into the destination.
pub fn should_create_folder_when_extract_with_smart_mode(entries: &Vec<ArchiveEntry>) -> (r: bool)
    ensures
        r == smart_mode_creates_folder(entries@),
{
    let mut root_file_count: usize = 0;
    let mut root_directory_count: usize = 0;
    let mut i: usize = 0;
    while i < entries.len()
        invariant
            i <= entries@.len(),
            root_file_count == count_root_entries(entries@.take(i as int), false),
            root_directory_count == count_root_entries(entries@.take(i as int), true),
            root_file_count + root_directory_count <= i,
        decreases entries@.len() - i,
    {
        let e = &entries[i];
        let root = name_is_root(&e.name);
        proof {
            assert(entries@.take(i + 1).drop_last() =~= entries@.take(i as int));
            assert(entries@.take(i + 1).last() == entries@[i as int]);
        }
        if root {
            if e.is_directory {
                root_directory_count += 1;
            } else {
                root_file_count += 1;
            }
        }
        i += 1;
    }
    proof {
        assert(entries@.take(entries@.len() as int) =~= entries@);
    }
    root_file_count > 1 || root_directory_count > 1
}

} // verus!
