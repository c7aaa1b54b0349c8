//! What a walk finds, said of a whole disk at once.

use vstd::prelude::*;

use crate::fsio::{FileKind, Reply, Request};
use crate::names::{is_note_name, is_skipped_name, ATTACHMENTS_DIR};
use crate::job_laws::is_strictly_below;
use crate::path::{Part, Path};
use crate::resolve::{aside_of, utf8, REMOVED_PREFIX, WRITE_TMP_SUFFIX};
use crate::walk::{
    folder_find, id_of, is_barred, look, settled, todos, walk_next, walk_request, walking, Asked, Found,
    FoundView, Look, TodoView, WalkKind, WalkStepView, WalkView,
};
use crate::text::{decimal, decimal_has_only_digits, shown};
use crate::watch::{
    is_relevant, name_texts_are_the_names, names_below, passes_skipped, watched, RENAME_TMP_SUFFIX,
};

verus! {

/// A disk that stands still: the answer to every operation that only reads.
pub type StillDisk = spec_fn(Request) -> Reply;

/// What a collection comes to: the finds or a message, or nothing where folders are nested deeper
/// than was looked for.
pub type Collected = Option<Result<Seq<FoundView>, Seq<char>>>;

/// `first`, and what `rest` adds to it; the first message wins.
pub open spec fn followed_by(first: Collected, rest: Collected) -> Collected {
    match (first, rest) {
        (Some(Ok(a)), Some(Ok(b))) => Some(Ok(a + b)),
        (Some(Ok(_)), _) => rest,
        _ => first,
    }
}

/// What there is to find in the folder `dir`, whose text below the root is `rel`: what there is
/// to find in each of its entries, one after the other.
pub open spec fn collected(
    disk: StillDisk,
    kind: WalkKind,
    dir: Path,
    rel: Seq<u8>,
    depth: nat,
) -> Collected
    decreases depth, 0nat, 0nat,
{
    if depth == 0 {
        None
    } else {
        match disk(Request::ReadDir(dir)) {
            Reply::Entries(Ok(list)) => collected_all(
                disk,
                kind,
                todos(dir, rel, list),
                (depth - 1) as nat,
            ),
            Reply::Entries(Err(fault)) => Some(Err(fault.text)),
            _ => None,
        }
    }
}

/// What there is to find in these entries.
pub open spec fn collected_all(
    disk: StillDisk,
    kind: WalkKind,
    todo: Seq<TodoView>,
    depth: nat,
) -> Collected
    decreases depth, todo.len(), 2nat,
{
    if todo.len() == 0 {
        Some(Ok(Seq::empty()))
    } else {
        followed_by(
            collected_one(disk, kind, todo[0], depth),
            collected_all(disk, kind, todo.drop_first(), depth),
        )
    }
}

/// What there is to find in one entry: a note with its body, or what is in a folder that is not
/// barred (behind the folder itself, where folders are collected).
pub open spec fn collected_one(
    disk: StillDisk,
    kind: WalkKind,
    entry: TodoView,
    depth: nat,
) -> Collected
    decreases depth, 0nat, 1nat,
{
    match look(kind, entry) {
        Look::Pass => Some(Ok(Seq::empty())),
        Look::List { rel, modified_ms } => Some(
            Ok(seq![Found { rel: id_of(rel), modified_ms, body: Seq::empty() }]),
        ),
        Look::Read { path, rel, modified_ms } => match disk(body_request(kind, path)) {
            Reply::Bytes(Ok(bytes)) => Some(
                Ok(seq![Found { rel: id_of(rel), modified_ms, body: shown(bytes) }]),
            ),
            Reply::Bytes(Err(fault)) => Some(Err(fault.text)),
            _ => None,
        },
        Look::Enter { dir, rel } => followed_by(
            Some(Ok(folder_find(kind, rel))),
            collected(disk, kind, dir, rel, depth),
        ),
        Look::Fail(message) => Some(Err(message)),
    }
}

/// How a walk reads the body of a note.
pub open spec fn body_request(kind: WalkKind, path: Path) -> Request {
    if kind == WalkKind::Full {
        Request::ReadFile(path)
    } else {
        Request::ReadHead(path, crate::walk::PREVIEW_SCAN_BYTES)
    }
}

/// Where a walk has come to after at most `n` answers of a disk that stands still.
pub open spec fn walked(s: WalkStepView, disk: StillDisk, n: nat) -> WalkStepView
    decreases n,
{
    match s {
        WalkStepView::More(w) if n > 0 => walked(
            walk_next(w, disk(walk_request(w))),
            disk,
            (n - 1) as nat,
        ),
        _ => s,
    }
}

/// How a walk ends that comes to `end`.
pub open spec fn walk_end(end: Result<Seq<FoundView>, Seq<char>>) -> WalkStepView {
    match end {
        Ok(found) => WalkStepView::Done(found),
        Err(message) => WalkStepView::Failed(message),
    }
}

proof fn walked_further(s: WalkStepView, disk: StillDisk, m: nat, n: nat)
    ensures
        walked(walked(s, disk, m), disk, n) == walked(s, disk, m + n),
    decreases m,
{
    if m > 0 {
        if let WalkStepView::More(w) = s {
            walked_further(walk_next(w, disk(walk_request(w))), disk, (m - 1) as nat, n);
        }
    }
}

/// A walk that has `todo` before `rest` comes to what there is to find in `todo`, and then goes on
/// with `rest`.
proof fn walk_collects_all(
    disk: StillDisk,
    kind: WalkKind,
    todo: Seq<TodoView>,
    depth: nat,
    found: Seq<FoundView>,
    rest: Seq<TodoView>,
) -> (n: nat)
    ensures
        match collected_all(disk, kind, todo, depth) {
            Some(Ok(more)) => walked(settled(kind, found, todo + rest), disk, n) == settled(
                kind,
                found + more,
                rest,
            ),
            Some(Err(message)) => walked(settled(kind, found, todo + rest), disk, n)
                == WalkStepView::Failed(message),
            None => true,
        },
    decreases depth, todo.len(),
{
    if todo.len() == 0 {
        assert(todo + rest =~= rest);
        assert(found + Seq::<FoundView>::empty() =~= found);
        0
    } else {
        let tail = todo.drop_first();
        let later = tail + rest;
        let here = todo + rest;
        assert(here[0] == todo[0]);
        assert(here.drop_first() =~= later);
        let one = collected_one(disk, kind, todo[0], depth);
        let more = collected_all(disk, kind, tail, depth);
        let start = settled(kind, found, here);
        match look(kind, todo[0]) {
            Look::Pass => {
                let n = walk_collects_all(disk, kind, tail, depth, found, rest);
                if let Some(Ok(b)) = more {
                    assert(Seq::<FoundView>::empty() + b =~= b);
                }
                n
            },
            Look::List { rel, modified_ms } => {
                let find = Found { rel: id_of(rel), modified_ms, body: Seq::empty() };
                let n = walk_collects_all(disk, kind, tail, depth, found.push(find), rest);
                if let Some(Ok(b)) = more {
                    assert(found + (seq![find] + b) =~= found.push(find) + b);
                }
                n
            },
            Look::Fail(_) => 0,
            Look::Read { path, rel, modified_ms } => {
                let w = WalkView {
                    kind,
                    found,
                    todo: later,
                    asked: Asked::Body { path, rel, modified_ms },
                };
                assert(start == WalkStepView::More(w));
                assert(walk_request(w) == body_request(kind, path));
                match disk(body_request(kind, path)) {
                    Reply::Bytes(Ok(bytes)) => {
                        let find = Found { rel: id_of(rel), modified_ms, body: shown(bytes) };
                        let n = walk_collects_all(disk, kind, tail, depth, found.push(find), rest);
                        if let Some(Ok(b)) = more {
                            assert(found + (seq![find] + b) =~= found.push(find) + b);
                        }
                        assert(walked(start, disk, n + 1) == walked(
                            settled(kind, found.push(find), later),
                            disk,
                            n,
                        ));
                        n + 1
                    },
                    Reply::Bytes(Err(fault)) => {
                        assert(walk_next(w, disk(walk_request(w))) == WalkStepView::Failed(
                            fault.text,
                        ));
                        assert(walked(start, disk, 1) == walked(
                            WalkStepView::Failed(fault.text),
                            disk,
                            0,
                        ));
                        1
                    },
                    _ => 0,
                }
            },
            Look::Enter { dir, rel } => {
                let shown_folder = folder_find(kind, rel);
                let w = WalkView {
                    kind,
                    found: found + shown_folder,
                    todo: later,
                    asked: Asked::Folder { dir, rel },
                };
                assert(start == WalkStepView::More(w));
                if depth == 0 {
                    0
                } else {
                    match disk(Request::ReadDir(dir)) {
                        Reply::Entries(Ok(list)) => {
                            let inside = todos(dir, rel, list);
                            let inner = collected_all(disk, kind, inside, (depth - 1) as nat);
                            let n1 = walk_collects_all(
                                disk,
                                kind,
                                inside,
                                (depth - 1) as nat,
                                found + shown_folder,
                                later,
                            );
                            let second = settled(kind, found + shown_folder, inside + later);
                            assert(walked(start, disk, n1 + 1) == walked(second, disk, n1));
                            match inner {
                                Some(Ok(a)) => {
                                    let third = settled(kind, found + shown_folder + a, later);
                                    let n2 = walk_collects_all(
                                        disk,
                                        kind,
                                        tail,
                                        depth,
                                        found + shown_folder + a,
                                        rest,
                                    );
                                    walked_further(start, disk, n1 + 1, n2);
                                    if let Some(Ok(b)) = more {
                                        assert(found + ((shown_folder + a) + b) =~= found
                                            + shown_folder + a + b);
                                    }
                                    n1 + 1 + n2
                                },
                                _ => n1 + 1,
                            }
                        },
                        Reply::Entries(Err(fault)) => {
                            assert(walk_next(w, disk(walk_request(w))) == WalkStepView::Failed(
                                fault.text,
                            ));
                            assert(walked(start, disk, 1) == walked(
                                WalkStepView::Failed(fault.text),
                                disk,
                                0,
                            ));
                            1
                        },
                        _ => 0,
                    }
                }
            },
        }
    }
}

/// Over a disk that stands still, a walk ends with what is collected from the folders one inside
/// the other, in the order in which they report their entries; or with the message of the first
/// fault on the way.
pub proof fn walk_finds_what_is_there(disk: StillDisk, kind: WalkKind, dir: Path, depth: nat)
    ensures
        collected(disk, kind, dir, Seq::empty(), depth) matches Some(end) ==> exists|n: nat|
            walked(WalkStepView::More(walking(kind, dir)), disk, n) == walk_end(end),
{
    let start = WalkStepView::More(walking(kind, dir));
    let w = walking(kind, dir);
    if depth > 0 {
        match disk(Request::ReadDir(dir)) {
            Reply::Entries(Ok(list)) => {
                let inside = todos(dir, Seq::empty(), list);
                let none = Seq::<FoundView>::empty();
                let nothing = Seq::<TodoView>::empty();
                let n = walk_collects_all(disk, kind, inside, (depth - 1) as nat, none, nothing);
                assert(walk_next(w, disk(walk_request(w))) == settled(kind, none, inside + nothing));
                assert(walked(start, disk, n + 1) == walked(
                    settled(kind, none, inside + nothing),
                    disk,
                    n,
                ));
                if let Some(Ok(all)) = collected(disk, kind, dir, Seq::empty(), depth) {
                    assert(none + all =~= all);
                }
            },
            Reply::Entries(Err(fault)) => {
                assert(walk_next(w, disk(walk_request(w))) == WalkStepView::Failed(fault.text));
                assert(walked(start, disk, 1) == walked(
                    WalkStepView::Failed(fault.text),
                    disk,
                    0,
                ));
            },
            _ => {},
        }
    }
}

/// The id of a note or folder never holds a backslash.
pub proof fn an_id_has_no_backslash(rel: Seq<u8>, i: int)
    requires
        0 <= i < id_of(rel).len(),
    ensures
        id_of(rel)[i] != '\\',
{
}

/// The place that a folder is renamed to before it is removed is left alone: no walk enters it, and
/// no change at it or below it is told.
pub proof fn what_is_set_aside_is_left_alone(
    root: Path,
    path: Path,
    number: u32,
    rest: Path,
    on_disk: Option<FileKind>,
)
    requires
        is_strictly_below(root, path),
    ensures
        aside_of(path, number).last() matches Part::Name(name) && is_barred(false, shown(name)),
        watched(root, aside_of(path, number) + rest, on_disk) is None,
{
    let aside = aside_of(path, number);
    let text = REMOVED_PREFIX@ + decimal(number as nat);
    let all = aside + rest;
    let at = aside.len() - 1;
    assert(path[path.len() - 1] is Name);
    assert(aside.last() == Part::Name(utf8(text)));
    vstd::utf8::encode_utf8_valid_utf8(text);
    vstd::utf8::encode_utf8_decode_utf8(text);
    reveal_strlit(".gn-removed-");
    reveal_strlit(".md");
    reveal_strlit(".MD");
    decimal_has_only_digits(number as nat);
    let digits = decimal(number as nat);
    assert(text[0] == '.');
    assert(text.last() == digits.last());
    assert('0' <= digits[digits.len() - 1] <= '9');
    assert(is_skipped_name(text));
    assert(!is_note_name(text)) by {
        assert(text.subrange(text.len() - 3, text.len() as int)[2] == text.last());
    }
    if let Some(names) = names_below(root, all) {
        assert(all[at] == aside.last());
        name_texts_are_the_names(all, root.len() as int, at);
        let i = at - root.len();
        assert(names[i] == text);
        if i < names.len() - 1 {
            assert(passes_skipped(names));
        }
    }
}

/// Whether a walk comes to the entry with these names below the root: none of the folders on the
/// way is barred.
pub open spec fn is_reachable(names: Seq<Seq<char>>) -> bool {
    names.len() > 0 && forall|i: int|
        0 <= i < names.len() - 1 ==> !is_barred(i == 0, #[trigger] names[i])
}

/// Walks and watching agree: a change of every note that a walk lists is told, whatever is there
/// now; and a change that is told lies behind no folder that the walks stay out of.
pub proof fn a_listed_note_is_watched(names: Seq<Seq<char>>, on_disk: Option<FileKind>)
    ensures
        is_reachable(names) && is_note_name(names.last()) ==> is_relevant(names, on_disk),
        is_relevant(names, on_disk) ==> is_reachable(names),
{
    reveal_strlit(".md");
    reveal_strlit(".MD");
    reveal_strlit(".gn-tmp");
    reveal_strlit(".rename-tmp");
    reveal_strlit("Attachments");
    let leaf = names.last();
    if is_reachable(names) && is_note_name(leaf) {
        assert forall|i: int| 0 <= i < names.len() - 1 implies !is_skipped_name(
            #[trigger] names[i],
        ) by {
            assert(!is_barred(i == 0, names[i]));
        }
        assert(leaf.last() == 'd' || leaf.last() == 'D') by {
            let end = leaf.subrange(leaf.len() - 3, leaf.len() as int);
            assert(end[2] == leaf.last());
        }
        if WRITE_TMP_SUFFIX@.is_suffix_of(leaf) {
            let end = leaf.subrange(leaf.len() - 7, leaf.len() as int);
            assert(end[6] == leaf.last());
        }
        if RENAME_TMP_SUFFIX@.is_suffix_of(leaf) {
            let end = leaf.subrange(leaf.len() - 11, leaf.len() as int);
            assert(end[10] == leaf.last());
        }
        if names[0] == ATTACHMENTS_DIR@ {
            if names.len() > 1 {
                assert(!is_barred(true, names[0]));
            } else {
                assert(leaf.last() == 's');
            }
        }
    }
}

} // verus!
