//! Listing the notes and reading them all agree.

use vstd::prelude::*;
use vstd::utf8::{decode_utf8, valid_utf8};

use crate::find_laws::{
    collected_finds, entries_of, finds_in, finds_in_all, finds_in_one, has_distinct_names,
    is_all_sought, is_found_as, is_genuine_disk, is_read_from, is_sought, path_at, rel_at, todo_at,
    Names,
};
use crate::fsio::{is_evicted, modified_of, Entry, Fault, Listing, Reply, Request};
use crate::commands::walk_job;
use crate::job::{
    as_heads, as_notes, done, failed, root_of, walk_outcome, JobView, Phase, PhaseView,
};
use crate::job_laws::answered;
use crate::listing::{FullView, HeadView};
use crate::path::{is_file_name, Path, SLASH};
use crate::resolve::{decoding_splits, utf8};
use crate::text::shown;
use crate::walk::{
    id_of, look, settled, slashed, todos, walk_next, walk_request, walking, Asked, Found,
    FoundView, Look, TodoView, WalkKind, WalkStepView, WalkView, PREVIEW_SCAN_BYTES,
};
use crate::walk_laws::{
    body_request, collected, walk_end, walk_finds_what_is_there, walked, StillDisk,
};

verus! {

/// The bytes that are read of a note for its preview.
pub open spec fn first_bytes(bytes: Seq<u8>) -> Seq<u8> {
    if bytes.len() <= PREVIEW_SCAN_BYTES {
        bytes
    } else {
        bytes.take(PREVIEW_SCAN_BYTES as int)
    }
}

/// Whether the beginning of a file is read as what its content begins with.
pub open spec fn heads_are_beginnings(disk: StillDisk) -> bool {
    forall|p: Path| #[trigger]
        disk(Request::ReadFile(p)) matches Reply::Bytes(Ok(bytes)) ==> disk(
            Request::ReadHead(p, PREVIEW_SCAN_BYTES),
        ) == Reply::Bytes(Ok(first_bytes(bytes)))
}

/// Whether `head` and `note` are the same note: by its id and with the time that its entry shows;
/// the note with all of its content, and its head with what that begins with, both read lossily;
/// or both without any where the content is evicted.
pub open spec fn is_same_note(
    disk: StillDisk,
    root: Path,
    names: Names,
    entry: Result<Entry, Fault>,
    head: HeadView,
    note: FullView,
) -> bool {
    &&& head.name == id_of(rel_at(names))
    &&& note.name == head.name
    &&& entry matches Ok(e) && e.name == names.last() && (e.meta matches Ok(meta)
        && head.modified_ms == modified_of(meta) && note.modified_ms == modified_of(meta) && if is_evicted(
        meta,
    ) {
        head.head == Seq::<char>::empty() && note.content == Seq::<char>::empty()
    } else {
        disk(Request::ReadFile(path_at(root, names))) matches Reply::Bytes(Ok(bytes))
            && note.content == shown(bytes) && head.head == shown(first_bytes(bytes))
    })
}

/// Whether `head` and `note` are the same note, the one with these names.
pub open spec fn is_one_note(
    disk: StillDisk,
    root: Path,
    names: Names,
    head: HeadView,
    note: FullView,
) -> bool {
    names.len() > 0 && exists|i: int|
        0 <= i < entries_of(disk, path_at(root, names.drop_last())).len() && is_same_note(
            disk,
            root,
            names,
            #[trigger] entries_of(disk, path_at(root, names.drop_last()))[i],
            head,
            note,
        )
}

/// Whether the heads and the notes are, one by one, the notes with these names.
pub open spec fn are_same_notes(
    disk: StillDisk,
    root: Path,
    paths: Seq<Names>,
    heads: Seq<HeadView>,
    notes: Seq<FullView>,
) -> bool {
    &&& heads.len() == paths.len()
    &&& notes.len() == paths.len()
    &&& forall|i: int|
        0 <= i < paths.len() ==> is_one_note(disk, root, #[trigger] paths[i], heads[i], notes[i])
}

/// Whether a walk shows each of these names as it is: they are UTF-8 and hold no backslash.
pub open spec fn are_plain(names: Names) -> bool {
    forall|i: int| 0 <= i < names.len() ==> is_plain(#[trigger] names[i])
}

/// Whether a name is UTF-8 and holds no backslash.
pub open spec fn is_plain(name: Seq<u8>) -> bool {
    is_file_name(name) && valid_utf8(name) && !decode_utf8(name).contains('\\')
}

/// Whether no name of a note occurs twice.
pub open spec fn has_each_name_once(heads: Seq<HeadView>) -> bool {
    forall|i: int, j: int|
        #![trigger heads[i], heads[j]]
        0 <= i < heads.len() && 0 <= j < heads.len() && heads[i].name == heads[j].name ==> i == j
}

proof fn kinds_find_the_same(disk: StillDisk, root: Path, names: Names, depth: nat)
    ensures
        finds_in(disk, WalkKind::Heads, root, names, depth) == finds_in(
            disk,
            WalkKind::Full,
            root,
            names,
            depth,
        ),
    decreases depth, 0nat, 0nat,
{
    if depth > 0 {
        kinds_find_the_same_in_all(
            disk,
            root,
            names,
            entries_of(disk, path_at(root, names)),
            (depth - 1) as nat,
        );
    }
}

proof fn kinds_find_the_same_in_all(
    disk: StillDisk,
    root: Path,
    names: Names,
    list: Listing,
    depth: nat,
)
    ensures
        finds_in_all(disk, WalkKind::Heads, root, names, list, depth) == finds_in_all(
            disk,
            WalkKind::Full,
            root,
            names,
            list,
            depth,
        ),
    decreases depth, list.len(), 2nat,
{
    if list.len() > 0 {
        kinds_find_the_same_in_all(disk, root, names, list.drop_first(), depth);
        let entry = list[0];
        let todo = todo_at(root, names, entry);
        assert(look(WalkKind::Heads, todo) == look(WalkKind::Full, todo));
        if let Ok(e) = entry {
            if look(WalkKind::Heads, todo) is Enter {
                kinds_find_the_same(disk, root, names.push(e.name), depth);
            }
        }
        assert(finds_in_one(disk, WalkKind::Heads, root, names, entry, depth) == finds_in_one(
            disk,
            WalkKind::Full,
            root,
            names,
            entry,
            depth,
        ));
    }
}

proof fn found_is_one_note(
    disk: StillDisk,
    root: Path,
    names: Names,
    head: FoundView,
    note: FoundView,
)
    requires
        is_genuine_disk(disk),
        heads_are_beginnings(disk),
        is_found_as(disk, WalkKind::Heads, root, names, head),
        is_found_as(disk, WalkKind::Full, root, names, note),
    ensures
        is_one_note(disk, root, names, as_heads(seq![head])[0], as_notes(seq![note])[0]),
{
    let list = entries_of(disk, path_at(root, names.drop_last()));
    let path = path_at(root, names);
    let i = choose|i: int|
        is_read_from(
            disk,
            WalkKind::Heads,
            path,
            #[trigger] entries_of(disk, path_at(root, names.drop_last()))[i],
            names.last(),
            head,
        ) && 0 <= i < entries_of(disk, path_at(root, names.drop_last())).len();
    let j = choose|j: int|
        is_read_from(
            disk,
            WalkKind::Full,
            path,
            #[trigger] entries_of(disk, path_at(root, names.drop_last()))[j],
            names.last(),
            note,
        ) && 0 <= j < entries_of(disk, path_at(root, names.drop_last())).len();
    assert(has_distinct_names(list));
    assert(list[i] is Ok && list[j] is Ok);
    assert(i == j);
    assert(body_request(WalkKind::Full, path) == Request::ReadFile(path));
    assert(is_same_note(
        disk,
        root,
        names,
        list[i],
        as_heads(seq![head])[0],
        as_notes(seq![note])[0],
    ));
}

/// Over a disk that stands still, listing the notes and reading them all give the same notes, by
/// the same names and with the same times: each regular note that is reached through no link and no
/// barred folder, once. A head is what the content begins with; an evicted note has neither. No
/// name occurs twice if all names are UTF-8 and hold no backslash: a walk shows others changed, so
/// that two can read alike.
pub proof fn listing_and_reading_agree(
    disk: StillDisk,
    root: Path,
    depth: nat,
    listed: Seq<FoundView>,
    read: Seq<FoundView>,
)
    requires
        is_genuine_disk(disk),
        heads_are_beginnings(disk),
        collected(disk, WalkKind::Heads, root, Seq::empty(), depth) == Some(
            Ok::<Seq<FoundView>, Seq<char>>(listed),
        ),
        collected(disk, WalkKind::Full, root, Seq::empty(), depth) == Some(
            Ok::<Seq<FoundView>, Seq<char>>(read),
        ),
    ensures
        exists|paths: Seq<Names>| #[trigger]
            is_all_sought(disk, WalkKind::Heads, root, paths) && are_same_notes(
                disk,
                root,
                paths,
                as_heads(listed),
                as_notes(read),
            ),
        (forall|p: Names| #[trigger] is_sought(disk, WalkKind::Heads, root, p) ==> are_plain(p))
            ==> has_each_name_once(as_heads(listed)),
{
    let paths = finds_in(disk, WalkKind::Heads, root, Seq::empty(), depth);
    let heads = as_heads(listed);
    let notes = as_notes(read);
    collected_finds(disk, WalkKind::Heads, root, depth);
    collected_finds(disk, WalkKind::Full, root, depth);
    kinds_find_the_same(disk, root, Seq::empty(), depth);
    assert forall|i: int| 0 <= i < paths.len() implies is_one_note(
        disk,
        root,
        #[trigger] paths[i],
        heads[i],
        notes[i],
    ) by {
        assert(is_found_as(disk, WalkKind::Heads, root, paths[i], listed[i]));
        assert(is_found_as(disk, WalkKind::Full, root, paths[i], read[i]));
        found_is_one_note(disk, root, paths[i], listed[i], read[i]);
        assert(as_heads(seq![listed[i]])[0] == heads[i]);
        assert(as_notes(seq![read[i]])[0] == notes[i]);
    }
    if forall|p: Names| #[trigger] is_sought(disk, WalkKind::Heads, root, p) ==> are_plain(p) {
        assert forall|i: int, j: int|
            #![trigger heads[i], heads[j]]
            0 <= i < heads.len() && 0 <= j < heads.len() && heads[i].name == heads[j].name implies i
            == j by {
            assert(paths.contains(paths[i]) && paths.contains(paths[j]));
            assert(is_one_note(disk, root, paths[i], heads[i], notes[i]));
            assert(is_one_note(disk, root, paths[j], heads[j], notes[j]));
            plain_ids_are_distinct(paths[i], paths[j]);
        }
    }
}

/// Two entries with names that are UTF-8 and hold no backslash never have the same id.
pub proof fn plain_ids_are_distinct(a: Names, b: Names)
    requires
        are_plain(a),
        are_plain(b),
        id_of(rel_at(a)) == id_of(rel_at(b)),
    ensures
        a == b,
{
    plain_text_is_shown(a);
    plain_text_is_shown(b);
    let x = rel_at(a);
    let y = rel_at(b);
    assert(slashed(decode_utf8(x)) =~= decode_utf8(x));
    assert(slashed(decode_utf8(y)) =~= decode_utf8(y));
    vstd::utf8::decode_utf8_encode_utf8(x);
    vstd::utf8::decode_utf8_encode_utf8(y);
    texts_of_names_are_distinct(a, b);
}

proof fn plain_rest(names: Names)
    requires
        are_plain(names),
        names.len() > 0,
    ensures
        are_plain(names.drop_last()),
        is_plain(names.last()),
{
    let rest = names.drop_last();
    assert forall|i: int| 0 <= i < rest.len() implies is_plain(#[trigger] rest[i]) by {
        assert(rest[i] == names[i]);
    }
    assert(is_plain(names[names.len() - 1]));
}

proof fn text_has_no_slash_at_its_end(names: Names)
    requires
        are_plain(names),
    ensures
        rel_at(names).len() == 0 <==> names.len() == 0,
        names.len() > 0 ==> rel_at(names).last() != SLASH,
{
    if names.len() > 0 {
        plain_rest(names);
        let name = names.last();
        let rel = rel_at(names);
        assert(rel.last() == name.last());
        assert(name[name.len() - 1] != SLASH);
    }
}

proof fn slash_is_a_text()
    ensures
        valid_utf8(seq![SLASH]),
        decode_utf8(seq![SLASH]) == seq!['/'],
{
    let slash = seq!['/'];
    vstd::utf8::is_ascii_chars_encode_utf8(slash);
    assert(utf8(slash) =~= seq![SLASH]);
    vstd::utf8::encode_utf8_valid_utf8(slash);
    vstd::utf8::encode_utf8_decode_utf8(slash);
}

proof fn empty_is_a_text()
    ensures
        valid_utf8(Seq::empty()),
        decode_utf8(Seq::empty()) == Seq::<char>::empty(),
{
    let none = Seq::<char>::empty();
    assert(utf8(none) =~= Seq::empty());
    vstd::utf8::encode_utf8_valid_utf8(none);
    vstd::utf8::encode_utf8_decode_utf8(none);
}

proof fn plain_text_is_shown(names: Names)
    requires
        are_plain(names),
    ensures
        valid_utf8(rel_at(names)),
        !decode_utf8(rel_at(names)).contains('\\'),
    decreases names.len(),
{
    empty_is_a_text();
    slash_is_a_text();
    if names.len() > 0 {
        plain_rest(names);
        let rest = names.drop_last();
        let name = names.last();
        let front = rel_at(rest);
        plain_text_is_shown(rest);
        text_has_no_slash_at_its_end(rest);
        if rest.len() > 0 {
            let start = front + seq![SLASH];
            assert(rel_at(names) =~= start + name);
            vstd::utf8::valid_utf8_concat(front, seq![SLASH]);
            decoding_splits(front, seq![SLASH]);
            vstd::utf8::valid_utf8_concat(start, name);
            decoding_splits(start, name);
            let all = decode_utf8(front) + seq!['/'] + decode_utf8(name);
            assert(decode_utf8(rel_at(names)) == all);
            if all.contains('\\') {
                let i = choose|i: int| 0 <= i < all.len() && all[i] == '\\';
                let n = decode_utf8(front).len();
                if i < n {
                    assert(decode_utf8(front)[i] == '\\');
                } else if i > n {
                    assert(decode_utf8(name)[i - n - 1] == '\\');
                }
            }
        }
    }
}

proof fn texts_of_names_are_distinct(a: Names, b: Names)
    requires
        are_plain(a),
        are_plain(b),
        rel_at(a) == rel_at(b),
    ensures
        a == b,
    decreases a.len(),
{
    text_has_no_slash_at_its_end(a);
    text_has_no_slash_at_its_end(b);
    if a.len() == 0 {
        assert(a =~= b);
    } else {
        plain_rest(a);
        plain_rest(b);
        let fa = a.drop_last();
        let fb = b.drop_last();
        let x = rel_at(fa);
        let y = rel_at(fb);
        let rel = rel_at(a);
        text_has_no_slash_at_its_end(fa);
        text_has_no_slash_at_its_end(fb);
        if fa.len() > 0 {
            assert(rel =~= x + seq![SLASH] + a.last());
            assert(rel[x.len() as int] == SLASH);
        }
        if fb.len() > 0 {
            assert(rel =~= y + seq![SLASH] + b.last());
            assert(rel[y.len() as int] == SLASH);
        }
        assert forall|i: int|
            (if fa.len() > 0 {
                x.len() + 1
            } else {
                0
            }) <= i < rel.len() implies rel[i] != SLASH by {
            let off = if fa.len() > 0 {
                x.len() + 1
            } else {
                0
            };
            assert(rel[i] == a.last()[i - off]);
            if rel[i] == SLASH {
                assert(a.last().contains(SLASH));
            }
        }
        assert forall|i: int|
            (if fb.len() > 0 {
                y.len() + 1
            } else {
                0
            }) <= i < rel.len() implies rel[i] != SLASH by {
            let off = if fb.len() > 0 {
                y.len() + 1
            } else {
                0
            };
            assert(rel[i] == b.last()[i - off]);
            if rel[i] == SLASH {
                assert(b.last().contains(SLASH));
            }
        }
        if fa.len() > 0 && fb.len() > 0 {
            assert(x.len() == y.len());
            assert(x =~= rel.take(x.len() as int));
            assert(y =~= rel.take(y.len() as int));
            assert(a.last() =~= rel.skip((x.len() + 1) as int));
            assert(b.last() =~= rel.skip((y.len() + 1) as int));
        } else {
            assert(fa.len() == 0 && fb.len() == 0);
            assert(a.last() == rel && b.last() == rel);
        }
        texts_of_names_are_distinct(fa, fb);
        assert(a =~= fa.push(a.last()));
        assert(b =~= fb.push(b.last()));
    }
}

/// The phase of a command whose walk has come to `s`.
spec fn phase_of(kind: WalkKind, s: WalkStepView) -> PhaseView {
    match s {
        WalkStepView::More(w) => Phase::Walk { at: w },
        WalkStepView::Done(found) => done(walk_outcome(kind, found)),
        WalkStepView::Failed(message) => failed(message),
    }
}

proof fn settling_keeps_the_kind(kind: WalkKind, found: Seq<FoundView>, todo: Seq<TodoView>)
    ensures
        settled(kind, found, todo) matches WalkStepView::More(w) ==> w.kind == kind,
    decreases todo.len(),
{
    if todo.len() > 0 {
        let rest = todo.drop_first();
        match look(kind, todo[0]) {
            Look::Pass => {
                settling_keeps_the_kind(kind, found, rest);
            },
            Look::List { rel, modified_ms } => {
                settling_keeps_the_kind(
                    kind,
                    found.push(Found { rel: id_of(rel), modified_ms, body: Seq::empty() }),
                    rest,
                );
            },
            _ => {},
        }
    }
}

/// A walk goes on as one of its kind.
pub proof fn walking_keeps_the_kind(w: WalkView, reply: Reply)
    ensures
        walk_next(w, reply) matches WalkStepView::More(next) ==> next.kind == w.kind,
{
    match (w.asked, reply) {
        (Asked::Folder { dir, rel }, Reply::Entries(Ok(list))) => {
            settling_keeps_the_kind(w.kind, w.found, todos(dir, rel, list) + w.todo);
        },
        (Asked::Body { rel, modified_ms, .. }, Reply::Bytes(Ok(bytes))) => {
            settling_keeps_the_kind(
                w.kind,
                w.found.push(Found { rel: id_of(rel), modified_ms, body: shown(bytes) }),
                w.todo,
            );
        },
        _ => {},
    }
}

proof fn a_command_follows_its_walk(
    disk: StillDisk,
    dir: Seq<char>,
    kind: WalkKind,
    s: WalkStepView,
    n: nat,
)
    requires
        s matches WalkStepView::More(w) ==> w.kind == kind,
    ensures
        answered(disk, JobView { dir, phase: phase_of(kind, s) }, n) == (JobView {
            dir,
            phase: phase_of(kind, walked(s, disk, n)),
        }),
    decreases n,
{
    if n > 0 {
        if let WalkStepView::More(w) = s {
            walking_keeps_the_kind(w, disk(walk_request(w)));
            a_command_follows_its_walk(
                disk,
                dir,
                kind,
                walk_next(w, disk(walk_request(w))),
                (n - 1) as nat,
            );
        }
    }
}

/// Over a disk that stands still, the commands that list the notes, read them all or list the
/// folders give back exactly what there is to find, or the message of the first fault on the way.
pub proof fn a_listing_gives_what_is_there(
    disk: StillDisk,
    dir: Seq<char>,
    kind: WalkKind,
    depth: nat,
)
    ensures
        collected(disk, kind, root_of(dir), Seq::empty(), depth) matches Some(end) ==> exists|n: nat|
            (#[trigger] answered(disk, walk_job(dir, kind), n)).phase == match end {
                Ok(found) => done(walk_outcome(kind, found)),
                Err(message) => failed(message),
            },
{
    let start = WalkStepView::More(walking(kind, root_of(dir)));
    walk_finds_what_is_there(disk, kind, root_of(dir), depth);
    if let Some(end) = collected(disk, kind, root_of(dir), Seq::empty(), depth) {
        let n = choose|n: nat| walked(start, disk, n) == walk_end(end);
        a_command_follows_its_walk(disk, dir, kind, start, n);
        assert(answered(disk, walk_job(dir, kind), n).phase == phase_of(kind, walk_end(end)));
    }
}

} // verus!
