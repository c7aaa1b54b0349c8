//! Which names are notes, and which folders the walks leave alone.

use vstd::prelude::*;

use crate::text::chars_of;

verus! {

/// Note files end in `.md`, in either case.
pub const MD_EXT: &'static str = ".md";

/// `MD_EXT` in capitals.
pub const MD_EXT_CAPITALS: &'static str = ".MD";

/// Marker file that keeps a deliberately empty folder alive.
pub const FOLDER_MARKER: &'static str = ".gnkeep";

/// The metadata sidecar; it only ever lives at the root, and a prune ignores it.
pub const METADATA_FILENAME: &'static str = ".gravity-notes.json";

/// Root-level folder of media attachments. It is storage, not a user folder.
pub const ATTACHMENTS_DIR: &'static str = "Attachments";

/// Heavy folder that the walks never descend, at any depth and in either case: a user can pull
/// one in by accidentally picking a project folder.
pub const SKIPPED_DIR: &'static str = "node_modules";

/// `SKIPPED_DIR` in capitals.
pub const SKIPPED_DIR_CAPITALS: &'static str = "NODE_MODULES";

/// Whether `s` reads `small` when the case of its letters is ignored; `capitals` is `small` in
/// capitals. All letters concerned are ASCII, and no character outside ASCII has one of them in
/// its lower-case form, so lowering the case of the whole of `s` by Unicode's rules and comparing
/// gives the same answer.
pub open spec fn in_either_case(s: Seq<char>, small: Seq<char>, capitals: Seq<char>) -> bool {
    &&& s.len() == small.len()
    &&& forall|i: int| 0 <= i < s.len() ==> s[i] == small[i] || s[i] == capitals[i]
}

/// Whether a file of this name is a note.
pub open spec fn is_note_name(name: Seq<char>) -> bool {
    &&& name.len() >= MD_EXT@.len()
    &&& in_either_case(
        name.subrange(name.len() - MD_EXT@.len(), name.len() as int),
        MD_EXT@,
        MD_EXT_CAPITALS@,
    )
}

/// Whether a name is hidden, in that it begins with a dot.
pub open spec fn is_dotted(name: Seq<char>) -> bool {
    name.len() > 0 && name[0] == '.'
}

/// Whether the walks leave a folder of this name alone.
pub open spec fn is_skipped_name(name: Seq<char>) -> bool {
    is_dotted(name) || in_either_case(name, SKIPPED_DIR@, SKIPPED_DIR_CAPITALS@)
}

fn reads_in_either_case(s: &Vec<char>, from: usize, small: &str, capitals: &str) -> (res: bool)
    requires
        from <= s@.len(),
        small@.len() == capitals@.len(),
    ensures
        res == in_either_case(s@.subrange(from as int, s@.len() as int), small@, capitals@),
{
    let a = chars_of(small);
    let b = chars_of(capitals);
    let ghost tail = s@.subrange(from as int, s@.len() as int);
    if s.len() - from != a.len() {
        return false;
    }
    let mut i: usize = 0;
    while i < a.len()
        invariant
            i <= a@.len() == b@.len(),
            a@ == small@,
            b@ == capitals@,
            from + a@.len() == s.len(),
            tail == s@.subrange(from as int, s@.len() as int),
            forall|k: int| 0 <= k < i ==> tail[k] == a@[k] || tail[k] == b@[k],
        decreases a@.len() - i,
    {
        assert(tail[i as int] == s@[from + i]);
        if s[from + i] != a[i] && s[from + i] != b[i] {
            return false;
        }
        i = i + 1;
    }
    true
}

/// Whether a file of this name is a note: its name ends in `.md`, in either case.
pub fn is_md(name: &str) -> (res: bool)
    ensures
        res == is_note_name(name@),
{
    proof {
        reveal_strlit(".md");
        reveal_strlit(".MD");
    }
    let s = chars_of(name);
    let ext_len: usize = chars_of(MD_EXT).len();
    s.len() >= ext_len && reads_in_either_case(&s, s.len() - ext_len, MD_EXT, MD_EXT_CAPITALS)
}

/// Whether a name begins with a dot.
pub fn starts_with_dot(name: &str) -> (res: bool)
    ensures
        res == is_dotted(name@),
{
    let s = chars_of(name);
    s.len() > 0 && s[0] == '.'
}

/// Whether the recursive walks leave a folder of this name alone: dot-folders (`.git`, the
/// `.trash`, ...) and `node_modules`.
pub fn is_skipped_dir(name: &str) -> (res: bool)
    ensures
        res == is_skipped_name(name@),
{
    proof {
        reveal_strlit("node_modules");
        reveal_strlit("NODE_MODULES");
    }
    let s = chars_of(name);
    assert(s@.subrange(0, s@.len() as int) == name@);
    starts_with_dot(name) || reads_in_either_case(&s, 0, SKIPPED_DIR, SKIPPED_DIR_CAPITALS)
}

} // verus!
