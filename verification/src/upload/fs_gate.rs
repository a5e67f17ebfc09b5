//! When the default backend reads payloads with completion I/O.
//!
//! On Linux that pays off on page-cache filesystems and costs elsewhere. On Darwin it is
//! slower than blocking reads. On other systems it is the default.
use crate::text::{lowered, same_text, to_lower, trim, trimmed};
use crate::upload::ResolvedUploadBackend;
use vstd::prelude::*;

verus! {

/// Filesystem type numbers as Linux reports them.
pub const EXT4_SUPER_MAGIC: i64 = 0xEF53;

pub const XFS_SUPER_MAGIC: i64 = 0x5846_5342;

pub const BTRFS_SUPER_MAGIC: i64 = 0x9123_683E;

/// The system that the engine runs on, as far as the choice depends on it.
#[derive(Debug, Clone, Copy, PartialEq, Eq, Structural)]
pub enum Platform {
    Linux,
    Darwin,
    Other,
}

/// Whether completion reads pay off on this filesystem type.
pub open spec fn fs_allows(f_type: i64) -> bool {
    f_type == EXT4_SUPER_MAGIC || f_type == XFS_SUPER_MAGIC || f_type == BTRFS_SUPER_MAGIC
}

/// Whether completion reads are used for a file, given its filesystem type where that
/// could be found out.
pub open spec fn path_allows(any_fs: bool, f_type: Option<i64>) -> bool {
    any_fs || (f_type matches Some(t) && fs_allows(t))
}

/// Whether completion reads are used for every one of these files.
pub open spec fn all_allow(any_fs: bool, f_types: Seq<Option<i64>>) -> bool {
    forall|i: int| 0 <= i < f_types.len() ==> path_allows(any_fs, #[trigger] f_types[i])
}

/// Whether completion reads pay off on this filesystem type.
pub fn fs_type_allows_compio_fill(f_type: i64) -> (r: bool)
    ensures
        r == fs_allows(f_type),
{
    f_type == EXT4_SUPER_MAGIC || f_type == XFS_SUPER_MAGIC || f_type == BTRFS_SUPER_MAGIC
}

/// Whether completion reads are used for a file on Linux. `f_type` is `None` where the
/// filesystem could not be asked; then blocking reads are used.
pub fn path_allows_compio_fill(any_fs: bool, f_type: Option<i64>) -> (r: bool)
    ensures
        r == path_allows(any_fs, f_type),
{
    if any_fs {
        return true;
    }
    match f_type {
        Some(t) => fs_type_allows_compio_fill(t),
        None => false,
    }
}

/// Whether the payload of a block is read with completion I/O. `span_fs` holds the
/// filesystem type of each file that the block touches.
pub fn prefer_compio_fill(
    backend: ResolvedUploadBackend,
    platform: Platform,
    any_fs: bool,
    span_fs: &[Option<i64>],
) -> (r: bool)
    ensures
        r == match backend {
            ResolvedUploadBackend::Pread => false,
            ResolvedUploadBackend::Compio => true,
            ResolvedUploadBackend::Auto => match platform {
                Platform::Linux => all_allow(any_fs, span_fs@),
                Platform::Darwin => false,
                Platform::Other => true,
            },
        },
{
    match backend {
        ResolvedUploadBackend::Pread => false,
        ResolvedUploadBackend::Compio => true,
        ResolvedUploadBackend::Auto => match platform {
            Platform::Darwin => false,
            Platform::Other => true,
            Platform::Linux => {
                let mut i: usize = 0;
                while i < span_fs.len()
                    invariant
                        i <= span_fs@.len(),
                        backend == ResolvedUploadBackend::Auto,
                        platform == Platform::Linux,
                        forall|j: int|
                            0 <= j < i ==> path_allows(any_fs, #[trigger] span_fs@[j]),
                    decreases span_fs@.len() - i,
                {
                    if !path_allows_compio_fill(any_fs, span_fs[i]) {
                        assert(!all_allow(any_fs, span_fs@)) by {
                            assert(!path_allows(any_fs, span_fs@[i as int]));
                        }
                        return false;
                    }
                    i += 1;
                }
                true
            },
        },
    }
}

/// The texts that lift the filesystem restriction.
pub open spec fn names_any_fs(v: Seq<char>) -> bool {
    let t = lowered(trimmed(v));
    t == "all"@ || t == "any"@ || t == "force"@ || t == "1"@ || t == "true"@ || t == "on"@
}

/// Whether the environment setting lifts the filesystem restriction. Unset does not.
pub fn env_truthy_any_fs(value: Option<&str>) -> (r: bool)
    ensures
        r == (value matches Some(v) && names_any_fs(v@)),
{
    match value {
        Some(v) => {
            let t = to_lower(trim(v).as_str());
            same_text(t.as_str(), "all") || same_text(t.as_str(), "any") || same_text(
                t.as_str(),
                "force",
            ) || same_text(t.as_str(), "1") || same_text(t.as_str(), "true") || same_text(
                t.as_str(),
                "on",
            )
        },
        None => false,
    }
}

/// Completion reads are used on ext4, XFS and Btrfs, and elsewhere only where the restriction
/// is lifted; for several files only where they are for each.
pub proof fn completion_reads_are_for_some_filesystems(
    any_fs: bool,
    f_type: Option<i64>,
    more: Seq<Option<i64>>,
)
    ensures
        f_type == Some(0xef53i64) || f_type == Some(0x5846_5342i64) || f_type == Some(
            0x9123_683ei64,
        ) || any_fs <==> path_allows(any_fs, f_type),
        all_allow(any_fs, Seq::<Option<i64>>::empty()),
        all_allow(any_fs, more.push(f_type)) <==> all_allow(any_fs, more) && path_allows(
            any_fs,
            f_type,
        ),
{
    if all_allow(any_fs, more.push(f_type)) {
        assert forall|i: int| 0 <= i < more.len() implies path_allows(
            any_fs,
            #[trigger] more[i],
        ) by {
            assert(more.push(f_type)[i] == more[i]);
        }
        assert(more.push(f_type)[more.len() as int] == f_type);
    }
}

/// The texts that lift the restriction do so in any case and between any white space.
pub proof fn the_restriction_is_lifted_by_these_words(v: Seq<char>)
    ensures
        names_any_fs(v) <==> lowered(trimmed(v)) == "all"@ || lowered(trimmed(v)) == "any"@
            || lowered(trimmed(v)) == "force"@ || lowered(trimmed(v)) == "1"@ || lowered(
            trimmed(v),
        ) == "true"@ || lowered(trimmed(v)) == "on"@,
        fs_allows(0xef53),
        fs_allows(0x5846_5342),
        fs_allows(0x9123_683e),
        !fs_allows(0x6969),
{
}

} // verus!
