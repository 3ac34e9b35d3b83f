//! A model of the write-temp-then-rename protocol.
//!
//! A collection file is replaced by writing the new content to a sibling
//! temporary file and renaming that file over the target.  The model below
//! captures a directory as a map from names to contents and the two steps
//! as functions on it; the lemmas state the protocol's point: until the
//! rename, the target is untouched, whatever step the process dies in, and
//! after the rename the target holds exactly the new content.

use vstd::prelude::*;

verus! {

/// A directory: each name maps to the content of the file of that name.
#[verifier::ext_equal]
pub struct DirModel {
    pub files: Map<Seq<char>, Seq<char>>,
}

/// The directory after a file is created (or truncated) and written whole.
pub open spec fn dir_create(d: DirModel, name: Seq<char>, content: Seq<char>) -> DirModel {
    DirModel { files: d.files.insert(name, content) }
}

/// The directory after `from` is renamed over `to`: `to` holds what `from`
/// held, `from` is gone.
pub open spec fn dir_rename(d: DirModel, from: Seq<char>, to: Seq<char>) -> DirModel {
    DirModel { files: d.files.remove(from).insert(to, d.files[from]) }
}

/// A write interrupted before the rename leaves the target file exactly as
/// it was: after the temporary file is written — the only step before the
/// rename that touches the directory — the target's presence and content
/// are unchanged, so a reader still parses what it parsed before.
pub proof fn lemma_interrupted_write_preserves_target(
    d: DirModel,
    target: Seq<char>,
    tmp: Seq<char>,
    content: Seq<char>,
)
    requires
        tmp != target,
    ensures
        dir_create(d, tmp, content).files.contains_key(target) == d.files.contains_key(target),
        d.files.contains_key(target) ==> dir_create(d, tmp, content).files[target]
            == d.files[target],
{
}

/// A completed write puts exactly the new content at the target and leaves
/// no temporary file behind.
pub proof fn lemma_completed_write(
    d: DirModel,
    target: Seq<char>,
    tmp: Seq<char>,
    content: Seq<char>,
)
    requires
        tmp != target,
    ensures
        dir_rename(dir_create(d, tmp, content), tmp, target).files.contains_key(target),
        dir_rename(dir_create(d, tmp, content), tmp, target).files[target] == content,
        !dir_rename(dir_create(d, tmp, content), tmp, target).files.contains_key(tmp),
        forall|other: Seq<char>|
            other != target && other != tmp ==> #[trigger] dir_rename(
                dir_create(d, tmp, content),
                tmp,
                target,
            ).files.contains_key(other) == d.files.contains_key(other),
        forall|other: Seq<char>|
            other != target && other != tmp && d.files.contains_key(other) ==> #[trigger] dir_rename(
                dir_create(d, tmp, content),
                tmp,
                target,
            ).files[other] == d.files[other],
{
}

} // verus!
