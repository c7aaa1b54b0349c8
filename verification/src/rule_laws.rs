//! The small rules in plain terms: names, times, flags, messages and the parts of paths.

use vstd::prelude::*;
use vstd::utf8::{decode_utf8, valid_utf8};

use crate::fsio::{answers, is_evicted, modified_of, FileMeta, Reply, Request};
use crate::job::{
    already_exists, attachments_of, could_not_reveal, marker_in, no_longer_exists, not_utf8,
    root_of,
};
use crate::listing::{id_in, not_empty, without_trailing_slashes};
use crate::names::{is_dotted, is_note_name, is_skipped_name};
use crate::path::{
    components, is_file_name, name_of, parent_of, pushed_text, render, Part, Path,
};
use crate::prune::is_sidecar;
use crate::resolve::{
    aside_of, escapes, names_something, refusal, staging_of, utf8, within, within_text,
};
use crate::text::{decimal, lossy_text, number_after, precedes, quoting, shown};
use crate::walk::{id_of, is_barred};
use crate::watch::slash_joined;

verus! {

/// A name is a note's exactly if its last three characters are `.md`, each letter small or capital,
/// whatever stands before them.
pub proof fn note_names_end_in_md(name: Seq<char>, stem: Seq<char>, m: char, d: char)
    ensures
        is_note_name(name) <==> {
            &&& name.len() >= 3
            &&& name[name.len() - 3] == '.'
            &&& name[name.len() - 2] == 'm' || name[name.len() - 2] == 'M'
            &&& name[name.len() - 1] == 'd' || name[name.len() - 1] == 'D'
        },
        (m == 'm' || m == 'M') && (d == 'd' || d == 'D') ==> is_note_name(stem + seq!['.', m, d]),
        is_note_name(stem + ".md"@),
{
    reveal_strlit(".md");
    reveal_strlit(".MD");
    assert forall|n: Seq<char>| n.len() >= 3 implies #[trigger] is_note_name(n) == {
        &&& n[n.len() - 3] == '.'
        &&& n[n.len() - 2] == 'm' || n[n.len() - 2] == 'M'
        &&& n[n.len() - 1] == 'd' || n[n.len() - 1] == 'D'
    } by {
        let end = n.subrange(n.len() - 3, n.len() as int);
        assert(end[0] == n[n.len() - 3]);
        assert(end[1] == n[n.len() - 2]);
        assert(end[2] == n[n.len() - 1]);
    }
}

/// The walks leave a folder alone exactly if its name begins with a dot, or is `node_modules` with
/// each letter small or capital; and in the picked folder the one called `Attachments`.
pub proof fn barred_folders(in_root: bool, name: Seq<char>)
    ensures
        is_dotted(name) <==> name.len() > 0 && name[0] == '.',
        is_skipped_name(name) <==> (name.len() > 0 && name[0] == '.') || (name.len() == 12 && forall|
            i: int,
        |
            0 <= i < 12 ==> name[i] == "node_modules"@[i] || name[i] == "NODE_MODULES"@[i]),
        is_barred(in_root, name) <==> is_skipped_name(name) || (in_root && name == "Attachments"@),
{
    reveal_strlit("node_modules");
    reveal_strlit("NODE_MODULES");
}

/// The last change of a file is the one that its metadata reports, to the millisecond, and 0 where
/// none is reported.
pub proof fn the_time_is_what_is_reported(meta: FileMeta, ms: u128)
    ensures
        meta.modified == Some(ms) ==> modified_of(meta) == ms,
        meta.modified is None ==> modified_of(meta) == 0,
{
}

/// Only the flag for it says that the content of a file is evicted: nothing else that is known of
/// the file matters.
pub proof fn only_the_flag_says_evicted(meta: FileMeta)
    ensures
        is_evicted(meta) <==> meta.flags & 0x4000_0000u32 != 0,
        meta.flags == 0 ==> !is_evicted(meta),
        meta.flags == 0x4000_0000u32 ==> is_evicted(meta),
{
    let flags = meta.flags;
    assert(flags == 0 ==> flags & 0x4000_0000u32 == 0) by (bit_vector);
    assert(flags == 0x4000_0000u32 ==> flags & 0x4000_0000u32 != 0) by (bit_vector);
}

/// The words of every message that the library makes itself.
pub proof fn messages_read(name: Seq<char>, before: Seq<char>, after: Seq<char>)
    ensures
        quoting(before, name, after) == before + "\""@ + name + "\""@ + after,
        refusal(name) == "invalid note path: \""@ + name + "\""@,
        already_exists(name) == "\""@ + name + "\" already exists"@,
        no_longer_exists(name) == "\""@ + name + "\" no longer exists"@,
        not_utf8(name) == "\""@ + name + "\" is not valid UTF-8 text"@,
        could_not_reveal(name) == "Finder could not reveal \""@ + name + "\""@,
        not_empty(name) == "\""@ + name + "\" is not empty"@,
{
    reveal_strlit("\"");
    reveal_strlit("invalid note path: \"");
    reveal_strlit("invalid note path: ");
    reveal_strlit("\" already exists");
    reveal_strlit(" already exists");
    reveal_strlit("\" no longer exists");
    reveal_strlit(" no longer exists");
    reveal_strlit("\" is not valid UTF-8 text");
    reveal_strlit(" is not valid UTF-8 text");
    reveal_strlit("Finder could not reveal \"");
    reveal_strlit("Finder could not reveal ");
    reveal_strlit("\" is not empty");
    reveal_strlit(" is not empty");
    assert(quoting(before, name, after) =~= before + "\""@ + name + "\""@ + after);
    assert(refusal(name) =~= "invalid note path: \""@ + name + "\""@);
    assert(already_exists(name) =~= "\""@ + name + "\" already exists"@);
    assert(no_longer_exists(name) =~= "\""@ + name + "\" no longer exists"@);
    assert(not_utf8(name) =~= "\""@ + name + "\" is not valid UTF-8 text"@);
    assert(could_not_reveal(name) =~= "Finder could not reveal \""@ + name + "\""@);
    assert(not_empty(name) =~= "\""@ + name + "\" is not empty"@);
}

/// What bytes are shown as: the text that they encode, where they encode one, and else the lossy
/// reading of them.
pub proof fn text_is_shown_as_it_is(text: Seq<char>, bytes: Seq<u8>)
    ensures
        shown(utf8(text)) == text,
        valid_utf8(bytes) ==> shown(bytes) == decode_utf8(bytes) && utf8(shown(bytes)) == bytes,
        !valid_utf8(bytes) ==> shown(bytes) == lossy_text(bytes),
{
    vstd::utf8::encode_utf8_valid_utf8(text);
    vstd::utf8::encode_utf8_decode_utf8(text);
    if valid_utf8(bytes) {
        vstd::utf8::decode_utf8_encode_utf8(bytes);
    }
}

/// An id is the text of the path with each backslash made a slash, and nothing else changed.
pub proof fn an_id_is_the_text(rel: Seq<u8>, i: int)
    requires
        valid_utf8(rel),
    ensures
        id_of(rel).len() == decode_utf8(rel).len(),
        0 <= i < id_of(rel).len() ==> id_of(rel)[i] == if decode_utf8(rel)[i] == '\\' {
            '/'
        } else {
            decode_utf8(rel)[i]
        },
{
}

/// A name goes behind a text with exactly one slash between them, and with none behind no text.
pub proof fn a_name_goes_behind_a_slash(text: Seq<u8>, name: Seq<u8>)
    ensures
        text.len() == 0 ==> pushed_text(text, name) == name,
        text.len() > 0 && text.last() != 47u8 ==> pushed_text(text, name) == text + seq![47u8]
            + name,
        text.len() > 0 && text.last() == 47u8 ==> pushed_text(text, name) == text + name,
{
    if text.len() > 0 && text.last() != 47u8 {
        assert(pushed_text(text, name) =~= text + seq![47u8] + name);
    }
}

/// What one stretch between slashes adds to a path: nothing where it is empty or a `.`, a step up
/// where it is `..`, and else a name.
pub open spec fn stretch(piece: Seq<u8>) -> Path {
    if piece.len() == 0 || piece == seq![46u8] {
        Seq::empty()
    } else if piece == seq![46u8, 46u8] {
        seq![Part::Up]
    } else {
        seq![Part::Name(piece)]
    }
}

/// How the text of a path is read, stretch by stretch: one without a slash is nothing, a `.`, a `..`
/// or a name; what stands behind a slash follows what stands before it; and a slash in front is the
/// root.
pub proof fn a_path_is_read_stretch_by_stretch(front: Seq<u8>, piece: Seq<u8>)
    requires
        !piece.contains(47u8),
    ensures
        components(piece) == if piece == seq![46u8] {
            seq![Part::Here]
        } else {
            stretch(piece)
        },
        front.len() > 0 ==> components(front + seq![47u8] + piece) == components(front) + stretch(
            piece,
        ),
        components(seq![47u8] + piece) == seq![Part::<Seq<u8>>::Root] + stretch(piece),
{
    crate::path::reading_goes_on_behind_a_slash(front, piece);
    assert(front + seq![47u8] + piece =~= front.push(47u8) + piece);
    assert(seq![47u8] + piece =~= Seq::<u8>::empty().push(47u8) + piece);
    assert(components(front) + Seq::<Part<Seq<u8>>>::empty() =~= components(front));
    assert(seq![Part::<Seq<u8>>::Root] + Seq::<Part<Seq<u8>>>::empty() =~= seq![
        Part::<Seq<u8>>::Root,
    ]);
}

/// What can name an entry of a folder: anything but nothing, `.`, `..` and what holds a slash.
pub proof fn names_of_entries(name: Seq<u8>)
    ensures
        is_file_name(name) <==> name.len() > 0 && !name.contains(47u8) && name != seq![46u8] && name
            != seq![46u8, 46u8],
{
}

/// What lies directly in a folder is held by it; nothing holds the root or the empty path.
pub proof fn a_folder_holds_its_entries(folder: Path, name: Seq<u8>)
    ensures
        parent_of(folder.push(Part::Name(name))) == Some(folder),
        parent_of(folder.push(Part::Up)) == Some(folder),
        parent_of(folder.push(Part::Here)) == Some(folder),
        parent_of(folder.push(Part::Root)) is None,
        parent_of(Seq::empty()) is None,
        name_of(folder.push(Part::Name(name))) == Some(name),
        name_of(folder.push(Part::Up)) is None,
        name_of(Seq::empty()) is None,
{
    assert(folder.push(Part::Name(name)).drop_last() =~= folder);
    assert(folder.push(Part::Up).drop_last() =~= folder);
    assert(folder.push(Part::Here).drop_last() =~= folder);
}

/// A path tries to leave its folder exactly if it begins at the root or steps up somewhere.
pub proof fn only_the_root_and_steps_up_escape(rel: Path)
    ensures
        escapes(rel) <==> rel.contains(Part::Root) || rel.contains(Part::Up),
{
    if rel.contains(Part::Root) {
        let i = choose|i: int| 0 <= i < rel.len() && rel[i] == Part::<Seq<u8>>::Root;
        assert(rel[i] is Root);
    }
    if rel.contains(Part::Up) {
        let i = choose|i: int| 0 <= i < rel.len() && rel[i] == Part::<Seq<u8>>::Up;
        assert(rel[i] is Up);
    }
    if escapes(rel) {
        let i = choose|i: int| 0 <= i < rel.len() && (#[trigger] rel[i] is Root || rel[i] is Up);
        assert(rel[i] == Part::<Seq<u8>>::Root || rel[i] == Part::<Seq<u8>>::Up);
    }
}

/// Resolving a path in a folder puts its names, one by one, behind the folder, and leaves out the
/// rest.
pub proof fn resolving_puts_names_behind(dir: Path, rel: Path, part: Part<Seq<u8>>)
    ensures
        within(dir, Seq::empty()) == dir,
        part is Name ==> within(dir, rel.push(part)) == within(dir, rel).push(part),
        !(part is Name) ==> within(dir, rel.push(part)) == within(dir, rel),
{
    reveal(Seq::filter);
    assert(within(dir, Seq::empty()) =~= dir);
    assert(rel.push(part).drop_last() =~= rel);
    if part is Name {
        assert(within(dir, rel.push(part)) =~= within(dir, rel).push(part));
    }
}

/// The text that a refusal shows: the folder as it was given, and behind it each name with a slash
/// between.
pub proof fn a_refused_path_is_shown_whole(dir: Seq<u8>, rel: Path, part: Part<Seq<u8>>)
    ensures
        within_text(dir, Seq::empty()) == dir,
        part matches Part::Name(name) ==> within_text(dir, rel.push(part)) == pushed_text(
            within_text(dir, rel),
            name,
        ),
        !(part is Name) ==> within_text(dir, rel.push(part)) == within_text(dir, rel),
{
    assert(rel.push(part).drop_last() =~= rel);
}

/// A path leads to something in the picked folder exactly if it holds a name.
pub proof fn a_path_with_a_name_names_something(name: Seq<char>)
    ensures
        names_something(name) <==> exists|i: int|
            0 <= i < components(utf8(name)).len() && (#[trigger] components(utf8(name))[i]) is Name,
{
    let rel = components(utf8(name));
    if exists|i: int| 0 <= i < rel.len() && (#[trigger] rel[i]) is Name {
        let i = choose|i: int| 0 <= i < rel.len() && (#[trigger] rel[i]) is Name;
        assert(crate::resolve::is_name(rel[i]));
    }
}

/// The files and folders that the library names itself: the staging file of an entry, the marker in
/// a folder, the attachments folder and the places beside a folder.
pub proof fn own_files_have_their_names(
    dir: Seq<char>,
    folder: Path,
    name: Seq<u8>,
    number: u32,
)
    ensures
        staging_of(folder.push(Part::Name(name))) == folder.push(
            Part::Name(name + utf8(".gn-tmp"@)),
        ),
        marker_in(folder) == folder.push(Part::Name(utf8(".gnkeep"@))),
        attachments_of(dir) == root_of(dir).push(Part::Name(utf8("Attachments"@))),
        root_of(dir) == components(utf8(dir)),
        aside_of(folder.push(Part::Name(name)), number) == folder.push(
            Part::Name(utf8(".gn-removed-"@ + decimal(number as nat))),
        ),
{
    a_folder_holds_its_entries(folder, name);
}

/// Numbers are written with their last digit last, and what follows a number is one more.
pub proof fn numbers_read_in_decimal(n: nat, d: nat, m: u32)
    requires
        d < 10,
    ensures
        decimal(d) == seq![('0' as u32 + d) as char],
        n > 0 ==> decimal(10 * n + d) == decimal(n) + decimal(d),
        m < u32::MAX ==> number_after(m) == m + 1,
        number_after(u32::MAX) == 0,
{
    if n > 0 {
        assert((10 * n + d) / 10 == n && (10 * n + d) % 10 == d) by (nonlinear_arith)
            requires
                d < 10,
        ;
        assert(decimal(10 * n + d) =~= decimal(n) + decimal(d));
    }
}

/// Texts are ordered by the first character in which they differ, and one that another begins with
/// comes before it.
pub proof fn texts_are_ordered_by_their_first_difference(
    common: Seq<char>,
    a: Seq<char>,
    b: Seq<char>,
)
    ensures
        a.len() > 0 && b.len() > 0 && a[0] != b[0] ==> (precedes(common + a, common + b) <==> (
        a[0] as u32) < (b[0] as u32)),
        a.len() == 0 ==> (precedes(common + a, common + b) <==> b.len() > 0),
        b.len() == 0 ==> !precedes(common + a, common + b),
    decreases common.len(),
{
    if common.len() == 0 {
        assert(common + a =~= a);
        assert(common + b =~= b);
    } else {
        texts_are_ordered_by_their_first_difference(common.drop_first(), a, b);
        assert((common + a).drop_first() =~= common.drop_first() + a);
        assert((common + b).drop_first() =~= common.drop_first() + b);
    }
}

/// Names are joined with one slash between each two of them.
pub proof fn names_are_joined_with_slashes(names: Seq<Seq<char>>, name: Seq<char>)
    ensures
        slash_joined(Seq::empty()) == Seq::<char>::empty(),
        slash_joined(seq![name]) == name,
        names.len() > 0 ==> slash_joined(names.push(name)) == slash_joined(names) + "/"@ + name,
{
    reveal_strlit("/");
    if names.len() > 0 {
        assert(names.push(name).drop_last() =~= names);
        assert(slash_joined(names.push(name)) =~= slash_joined(names) + "/"@ + name);
    }
}

/// A text without the slashes at its end: they are all gone, and nothing else is.
pub proof fn only_slashes_at_the_end_go(s: Seq<char>)
    ensures
        ({
            let kept = without_trailing_slashes(s);
            &&& kept.is_prefix_of(s)
            &&& forall|i: int| kept.len() <= i < s.len() ==> s[i] == '/'
            &&& kept.len() > 0 ==> kept.last() != '/'
        }),
    decreases s.len(),
{
    if s.len() > 0 && s.last() == '/' {
        only_slashes_at_the_end_go(s.drop_last());
        let kept = without_trailing_slashes(s.drop_last());
        assert(s.subrange(0, kept.len() as int) =~= s.drop_last().subrange(0, kept.len() as int));
        assert forall|i: int| kept.len() <= i < s.len() implies s[i] == '/' by {
            if i < s.len() - 1 {
                assert(s.drop_last()[i] == s[i]);
            }
        }
    } else {
        assert(s.subrange(0, s.len() as int) =~= s);
    }
}

/// The id of an entry: its name behind that of its folder, or alone where the folder has none.
pub proof fn an_entry_is_named_in_its_folder(sub: Seq<char>, name: Seq<char>)
    ensures
        id_in(Seq::empty(), name) == name,
        sub.len() > 0 && sub.last() != '/' ==> id_in(sub, name) == sub + "/"@ + name,
        id_in(sub.push('/'), name) == id_in(sub, name),
{
    reveal_strlit("/");
    assert(sub.push('/').drop_last() =~= sub);
    if sub.len() > 0 && sub.last() != '/' {
        assert(id_in(sub, name) =~= sub + "/"@ + name);
    }
}

/// Only the metadata sidecar counts for nothing in a folder that is to be pruned.
pub proof fn only_the_sidecar_counts_for_nothing(
    entry: Result<crate::fsio::Entry, crate::fsio::Fault>,
)
    ensures
        is_sidecar(entry) <==> (entry matches Ok(e) && shown(e.name) == ".gravity-notes.json"@),
{
}

/// Which answer fits which operation.
pub proof fn each_operation_has_its_answer(p: Path, q: Path, bytes: Seq<u8>, n: u64, reply: Reply)
    ensures
        answers(Request::Canonicalize(p), reply) == (reply is Canonical),
        answers(Request::ReadLink(p), reply) == (reply is Link),
        answers(Request::Metadata(p), reply) == (reply is Meta),
        answers(Request::Exists(p), reply) == (reply is Exists),
        answers(Request::ReadDir(p), reply) == (reply is Entries),
        answers(Request::ReadFile(p), reply) == (reply is Bytes),
        answers(Request::ReadHead(p, n), reply) == (reply is Bytes),
        answers(Request::WriteFile(p, bytes), reply) == (reply is Done),
        answers(Request::CreateDirAll(p), reply) == (reply is Done),
        answers(Request::Rename(p, q), reply) == (reply is Done),
        answers(Request::Copy(p, q), reply) == (reply is Done),
        answers(Request::RemoveFile(p), reply) == (reply is Done),
        answers(Request::RemoveDir(p), reply) == (reply is Done),
        answers(Request::RemoveDirAll(p), reply) == (reply is Done),
        answers(Request::Reveal(p), reply) == (reply is Launched),
{
}

/// A path is written part by part: the root as a slash, a step up as two dots, and each name behind
/// what stands before it.
pub proof fn a_path_is_written_part_by_part(path: Path, name: Seq<u8>)
    ensures
        render(Seq::empty()) == Seq::<u8>::empty(),
        render(seq![Part::Root]) == seq![47u8],
        render(seq![Part::Here]) == seq![46u8],
        render(path.push(Part::Up)) == pushed_text(render(path), seq![46u8, 46u8]),
        render(path.push(Part::Name(name))) == pushed_text(render(path), name),
{
    let none = Path::empty();
    assert(render(none) == Seq::<u8>::empty());
    assert(path.push(Part::Up).drop_last() =~= path);
    assert(path.push(Part::Name(name)).drop_last() =~= path);
    assert(seq![Part::<Seq<u8>>::Root].drop_last() =~= none);
    assert(seq![Part::<Seq<u8>>::Here].drop_last() =~= none);
}

} // verus!
