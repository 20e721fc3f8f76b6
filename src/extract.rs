//! What to do with each entry of an archive.
use vstd::prelude::*;

verus! {

/// Code which decides whether to unzip a given filename.
pub trait FilenameFilter {
    /// Returns true if the given filename should be unzipped.
    fn should_unzip(&self, filename: &str) -> bool;
}

/// Filename filter which admits every file.
pub struct UnzipAllFilter;

impl FilenameFilter for UnzipAllFilter {
    fn should_unzip(&self, filename: &str) -> (r: bool)
        ensures
            r,
    {
        true
    }
}

/// What the extractor reads of an archive entry.
pub struct EntryInfo {
    /// The entry's path, where it is safe to join onto the output directory.
    pub enclosed_name: Option<String>,
    /// The entry's name as the archive stores it.
    pub raw_name: String,
    /// The entry's size in the archive.
    pub compressed_size: u64,
    /// The entry's POSIX mode, where the archive records one.
    pub unix_mode: Option<u32>,
}

/// What to do with one entry.
pub enum EntryPlan {
    /// The entry's path would escape the output directory: it fails.
    UnsafePath,
    /// The filter declined the entry: skip this many bytes of the archive.
    Skip { skip_bytes: u64 },
    /// Create this directory, then set these permissions if any.
    Directory { name: String, mode: Option<u32> },
    /// Write the entry's bytes to this file, then set these permissions if
    /// any.
    File { name: String, mode: Option<u32> },
}

/// A raw entry name that ends in `/` names a directory.
pub open spec fn is_dir_name(raw: Seq<char>) -> bool {
    raw.len() > 0 && raw.last() == '/'
}

/// The permission bits of a POSIX mode.
pub open spec fn permission_bits_spec(mode: Option<u32>) -> Option<u32> {
    match mode {
        Some(m) => Some(m & 0o7777u32),
        None => None,
    }
}

/// `plan` is what an entry gets when the filter answered `wanted`.
pub open spec fn plan_matches(entry: EntryInfo, wanted: bool, plan: EntryPlan) -> bool {
    match entry.enclosed_name {
        None => plan is UnsafePath,
        Some(n) => if !wanted {
            plan == (EntryPlan::Skip { skip_bytes: entry.compressed_size })
        } else {
            match plan {
                EntryPlan::Directory { name, mode } => {
                    &&& is_dir_name(entry.raw_name@)
                    &&& name@ == n@
                    &&& mode == permission_bits_spec(entry.unix_mode)
                },
                EntryPlan::File { name, mode } => {
                    &&& !is_dir_name(entry.raw_name@)
                    &&& name@ == n@
                    &&& mode == permission_bits_spec(entry.unix_mode)
                },
                _ => false,
            }
        },
    }
}

/// Whether a raw entry name ends in `/`.
pub fn names_directory(raw: &str) -> (r: bool)
    ensures
        r == is_dir_name(raw@),
{
    let n: usize = raw.unicode_len();
    n > 0 && raw.get_char(n - 1) == '/'
}

/// The permission bits of a POSIX mode, where there is one.
pub fn permission_bits(mode: Option<u32>) -> (r: Option<u32>)
    ensures
        r == permission_bits_spec(mode),
{
    match mode {
        Some(m) => Some(m & 0o7777u32),
        None => None,
    }
}

/// The plan for an entry, given the filter's answer for its name.
pub fn plan_entry(entry: EntryInfo, wanted: bool) -> (r: EntryPlan)
    ensures
        plan_matches(entry, wanted, r),
{
    let is_dir = names_directory(entry.raw_name.as_str());
    let mode = permission_bits(entry.unix_mode);
    match entry.enclosed_name {
        None => EntryPlan::UnsafePath,
        Some(name) => if !wanted {
            EntryPlan::Skip { skip_bytes: entry.compressed_size }
        } else if is_dir {
            EntryPlan::Directory { name, mode }
        } else {
            EntryPlan::File { name, mode }
        },
    }
}

/// The plan for an entry. The filter is asked once, and only about an
/// entry whose path is safe; an entry it declines is skipped, with nothing
/// created or decompressed.
pub fn decide_entry<F: FilenameFilter>(filter: &F, entry: EntryInfo) -> (r: EntryPlan)
    ensures
        entry.enclosed_name is None ==> r is UnsafePath,
        entry.enclosed_name is Some ==> plan_matches(entry, true, r) || plan_matches(entry, false, r),
{
    let wanted: bool = match &entry.enclosed_name {
        None => false,
        Some(name) => filter.should_unzip(name.as_str()),
    };
    plan_entry(entry, wanted)
}

/// The first of the errors collected over all entries, or success where
/// there were none.
pub fn first_error<E>(errors: Vec<E>) -> (r: Result<(), E>)
    ensures
        r is Ok <==> errors@.len() == 0,
        r matches Err(e) ==> e == errors@[0],
{
    let mut errors = errors;
    if errors.len() == 0 {
        Ok(())
    } else {
        Err(errors.remove(0))
    }
}

} // verus!
