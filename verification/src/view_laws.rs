//! What the contracts say of operations, answers and results is what these hold, field by field.

use vstd::prelude::*;

use crate::assignments::text_of;
use crate::fsio::{FsRequest, OsEntry, OsFault, OsReply, OsRequest, Reply};
use crate::job::{end_view, OsEnd, OsOutcome, Outcome};
use crate::path::{FsPath, Part};
use crate::shell::{MenuEntry, Submenu};
use crate::watch::{batch_view, texts, WatchEvent};
use crate::windows::{Found, Opening};

verus! {

/// A path is seen part by part.
pub proof fn a_path_is_seen_part_by_part(path: FsPath, i: int)
    ensures
        path@.len() == path.parts@.len(),
        0 <= i < path@.len() ==> match path.parts@[i] {
            Part::Root => path@[i] is Root,
            Part::Here => path@[i] is Here,
            Part::Up => path@[i] is Up,
            Part::Name(name) => path@[i] == Part::Name(name@),
        },
{
}

/// A fault and an entry are seen with all that is known of them.
pub proof fn entries_and_faults_are_seen_whole(fault: OsFault, entry: OsEntry)
    ensures
        fault@.not_found == fault.not_found,
        fault@.text == fault.text@,
        entry@.name == entry.name@,
        match entry.kind {
            Ok(kind) => entry@.kind matches Ok(seen) && seen == kind,
            Err(f) => entry@.kind matches Err(seen) && seen.text == f.text@ && seen.not_found
                == f.not_found,
        },
        match entry.meta {
            Ok(meta) => entry@.meta matches Ok(seen) && seen == meta,
            Err(f) => entry@.meta matches Err(seen) && seen.text == f.text@ && seen.not_found
                == f.not_found,
        },
{
}

/// An operation is seen as what it is, with its paths and its bytes.
pub proof fn an_operation_is_seen_as_it_is(request: OsRequest)
    ensures
        match request {
            FsRequest::Canonicalize(p) => request@ matches FsRequest::Canonicalize(q) && q == p@,
            FsRequest::ReadLink(p) => request@ matches FsRequest::ReadLink(q) && q == p@,
            FsRequest::Metadata(p) => request@ matches FsRequest::Metadata(q) && q == p@,
            FsRequest::Exists(p) => request@ matches FsRequest::Exists(q) && q == p@,
            FsRequest::ReadDir(p) => request@ matches FsRequest::ReadDir(q) && q == p@,
            FsRequest::ReadFile(p) => request@ matches FsRequest::ReadFile(q) && q == p@,
            FsRequest::ReadHead(p, n) => request@ matches FsRequest::ReadHead(q, m) && q == p@ && m
                == n,
            FsRequest::WriteFile(p, b) => request@ matches FsRequest::WriteFile(q, c) && q == p@
                && c == b@,
            FsRequest::CreateDirAll(p) => request@ matches FsRequest::CreateDirAll(q) && q == p@,
            FsRequest::Rename(p, b) => request@ matches FsRequest::Rename(q, c) && q == p@ && c
                == b@,
            FsRequest::Copy(p, b) => request@ matches FsRequest::Copy(q, c) && q == p@ && c == b@,
            FsRequest::RemoveFile(p) => request@ matches FsRequest::RemoveFile(q) && q == p@,
            FsRequest::RemoveDir(p) => request@ matches FsRequest::RemoveDir(q) && q == p@,
            FsRequest::RemoveDirAll(p) => request@ matches FsRequest::RemoveDirAll(q) && q == p@,
            FsRequest::Reveal(p) => request@ matches FsRequest::Reveal(q) && q == p@,
        },
{
}

/// An answer is seen as what it is, with all that it says.
pub proof fn an_answer_is_seen_as_it_is(reply: OsReply, i: int)
    ensures
        match reply {
            OsReply::Canonical(Ok(p)) => reply@ matches Reply::Canonical(Ok(q)) && q == p@,
            OsReply::Canonical(Err(f)) => reply@ matches Reply::Canonical(Err(g)) && g == f@,
            OsReply::Link(Ok(Some(p))) => reply@ matches Reply::Link(Ok(Some(q))) && q == p@,
            OsReply::Link(Ok(None)) => reply@ matches Reply::Link(Ok(None)),
            OsReply::Link(Err(f)) => reply@ matches Reply::Link(Err(g)) && g == f@,
            OsReply::Meta(Ok(m)) => reply@ matches Reply::Meta(Ok(n)) && n == m,
            OsReply::Meta(Err(f)) => reply@ matches Reply::Meta(Err(g)) && g == f@,
            OsReply::Exists(b) => reply@ matches Reply::Exists(c) && c == b,
            OsReply::Entries(Ok(list)) => reply@ matches Reply::Entries(Ok(seen)) && seen.len()
                == list@.len() && (0 <= i < seen.len() ==> match list@[i] {
                Ok(e) => seen[i] matches Ok(x) && x == e@,
                Err(f) => seen[i] matches Err(g) && g == f@,
            }),
            OsReply::Entries(Err(f)) => reply@ matches Reply::Entries(Err(g)) && g == f@,
            OsReply::Bytes(Ok(b)) => reply@ matches Reply::Bytes(Ok(c)) && c == b@,
            OsReply::Bytes(Err(f)) => reply@ matches Reply::Bytes(Err(g)) && g == f@,
            OsReply::Done(Ok(_)) => reply@ matches Reply::Done(Ok(_)),
            OsReply::Done(Err(f)) => reply@ matches Reply::Done(Err(g)) && g == f@,
            OsReply::Launched(Ok(b)) => reply@ matches Reply::Launched(Ok(c)) && c == b,
            OsReply::Launched(Err(f)) => reply@ matches Reply::Launched(Err(g)) && g == f@,
        },
{
}

/// What a command gives back is seen as what it is, with all that it holds; and so is the message of
/// one that fails.
pub proof fn a_result_is_seen_as_it_is(value: OsOutcome, message: String, i: int)
    ensures
        end_view(OsEnd::Err(message)) matches Err(text) && text == message@,
        end_view(OsEnd::Ok(value)) matches Ok(seen) && seen == value@,
        match value {
            Outcome::Unit => value@ is Unit,
            Outcome::Heads(list) => value@ matches Outcome::Heads(seen) && seen.len() == list@.len()
                && (0 <= i < seen.len() ==> seen[i].name == list@[i].name@ && seen[i].modified_ms
                == list@[i].modified_ms && seen[i].head == list@[i].head@),
            Outcome::Notes(list) => value@ matches Outcome::Notes(seen) && seen.len() == list@.len()
                && (0 <= i < seen.len() ==> seen[i].name == list@[i].name@ && seen[i].modified_ms
                == list@[i].modified_ms && seen[i].content == list@[i].content@),
            Outcome::Note(None) => value@ matches Outcome::Note(None),
            Outcome::Note(Some(note)) => value@ matches Outcome::Note(Some(seen)) && seen.name
                == note.name@ && seen.modified_ms == note.modified_ms && seen.content
                == note.content@,
            Outcome::Stamp(ms) => value@ matches Outcome::Stamp(seen) && seen == ms,
            Outcome::MaybeStamp(ms) => value@ matches Outcome::MaybeStamp(seen) && seen == ms,
            Outcome::Bytes(None) => value@ matches Outcome::Bytes(None),
            Outcome::Bytes(Some(bytes)) => value@ matches Outcome::Bytes(Some(seen)) && seen
                == bytes@,
            Outcome::Attachments(list) => value@ matches Outcome::Attachments(seen) && seen.len()
                == list@.len() && (0 <= i < seen.len() ==> seen[i].name == list@[i].name@
                && seen[i].size == list@[i].size && seen[i].modified_ms == list@[i].modified_ms),
            Outcome::Folders(list) => value@ matches Outcome::Folders(seen) && seen.len()
                == list@.len() && (0 <= i < seen.len() ==> seen[i] == list@[i]@),
            Outcome::Flag(b) => value@ matches Outcome::Flag(seen) && seen == b,
        },
{
}

/// Lists of texts, a text that may be missing and a batch of changes are seen with all that they hold.
pub proof fn texts_and_batches_are_seen_whole(
    list: Seq<String>,
    text: &str,
    batch: Result<Vec<WatchEvent>, ()>,
    i: int,
)
    ensures
        texts(list).len() == list.len(),
        0 <= i < list.len() ==> texts(list)[i] == list[i]@,
        text_of(Some(text)) == Some(text@),
        text_of(None) is None,
        match batch {
            Ok(events) => batch_view(batch) matches Ok(seen) && seen == events@,
            Err(_) => batch_view(batch) is Err,
        },
{
}

/// Where something is open, or is opened, is seen with its label and its number.
pub proof fn where_something_is_open_is_seen(found: Found<String>, opening: Opening<String>)
    ensures
        match found {
            Found::Opening => found@ is Opening,
            Found::Window(label) => found@ matches Found::Window(seen) && seen == label@,
            Found::Nowhere => found@ is Nowhere,
        },
        match opening {
            Opening::Opening => opening@ is Opening,
            Opening::Window(label) => opening@ matches Opening::Window(seen) && seen == label@,
            Opening::Create(label, n) => opening@ matches Opening::Create(seen, m) && seen == label@
                && m == n,
        },
{
}

/// A menu is seen with its title and its items, and an item as what it is.
pub proof fn a_menu_is_seen_item_by_item(
    menu: Submenu<String, Vec<MenuEntry<String>>>,
    entry: MenuEntry<String>,
    i: int,
)
    ensures
        menu@.title == menu.title@,
        menu@.entries.len() == menu.entries@.len(),
        0 <= i < menu@.entries.len() ==> menu@.entries[i] == menu.entries@[i]@,
        match entry {
            MenuEntry::Separator => entry@ is Separator,
            MenuEntry::Services => entry@ is Services,
            MenuEntry::Hide => entry@ is Hide,
            MenuEntry::HideOthers => entry@ is HideOthers,
            MenuEntry::ShowAll => entry@ is ShowAll,
            MenuEntry::Quit => entry@ is Quit,
            MenuEntry::Undo => entry@ is Undo,
            MenuEntry::Redo => entry@ is Redo,
            MenuEntry::Cut => entry@ is Cut,
            MenuEntry::Copy => entry@ is Copy,
            MenuEntry::Paste => entry@ is Paste,
            MenuEntry::SelectAll => entry@ is SelectAll,
            MenuEntry::Fullscreen => entry@ is Fullscreen,
            MenuEntry::Minimize => entry@ is Minimize,
            MenuEntry::Maximize => entry@ is Maximize,
            MenuEntry::CloseWindow => entry@ is CloseWindow,
            MenuEntry::Own(id, title, Some(keys)) => entry@ matches MenuEntry::Own(a, b, Some(c))
                && a == id@ && b == title@ && c == keys@,
            MenuEntry::Own(id, title, None) => entry@ matches MenuEntry::Own(a, b, None) && a == id@
                && b == title@,
        },
{
}

} // verus!
