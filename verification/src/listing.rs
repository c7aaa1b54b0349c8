//! What a single folder's content is listed as.

use vstd::prelude::*;

use crate::fsio::{
    listing, modified_ms, modified_of, outcome_view, Entry, Fault, FileKind, Listing, OsEntry,
    OsFault, OsListing,
};
use crate::names::{is_dotted, is_md, is_note_name, starts_with_dot, FOLDER_MARKER};
use crate::path::same_bytes;
use crate::resolve::utf8;
use crate::text::{chars_of, quoted, quoting, shown, text_from_utf8_lossy, text_of};

verus! {

/// A note with only the head of its body, for building the list preview cheaply.
pub struct NoteHead<S> {
    pub name: S,
    pub modified_ms: u128,
    pub head: S,
}

/// A note (or the metadata sidecar) with its full content.
pub struct NoteFull<S> {
    pub name: S,
    pub modified_ms: u128,
    pub content: S,
}

/// One stored attachment, for the management view.
pub struct AttachmentEntry<S> {
    pub name: S,
    pub size: u64,
    pub modified_ms: u128,
}

/// A note's head in contracts.
pub type HeadView = NoteHead<Seq<char>>;

/// A note in contracts.
pub type FullView = NoteFull<Seq<char>>;

/// An attachment in contracts.
pub type AttachmentView = AttachmentEntry<Seq<char>>;

impl View for NoteHead<String> {
    type V = HeadView;

    open spec fn view(&self) -> HeadView {
        NoteHead { name: self.name@, modified_ms: self.modified_ms, head: self.head@ }
    }
}

impl View for NoteFull<String> {
    type V = FullView;

    open spec fn view(&self) -> FullView {
        NoteFull { name: self.name@, modified_ms: self.modified_ms, content: self.content@ }
    }
}

impl View for AttachmentEntry<String> {
    type V = AttachmentView;

    open spec fn view(&self) -> AttachmentView {
        AttachmentEntry { name: self.name@, size: self.size, modified_ms: self.modified_ms }
    }
}

/// The views of a list of values.
pub open spec fn views<T: View>(list: Seq<T>) -> Seq<T::V> {
    Seq::new(list.len(), |i: int| list[i]@)
}

/// What became of one entry: listed, passed over, or a fault.
pub type Visit<T> = Result<Option<T>, Seq<char>>;

/// The listed entries in order, unless there is a fault: then the first of them.
pub open spec fn gathered<T>(visits: Seq<Visit<T>>) -> Result<Seq<T>, Seq<char>>
    decreases visits.len(),
{
    if visits.len() == 0 {
        Ok(Seq::empty())
    } else {
        match (gathered(visits.drop_last()), visits.last()) {
            (Err(message), _) => Err(message),
            (Ok(_), Err(message)) => Err(message),
            (Ok(list), Ok(None)) => Ok(list),
            (Ok(list), Ok(Some(item))) => Ok(list.push(item)),
        }
    }
}

/// `s` without the slashes it ends with.
pub open spec fn without_trailing_slashes(s: Seq<char>) -> Seq<char>
    decreases s.len(),
{
    if s.len() > 0 && s.last() == '/' {
        without_trailing_slashes(s.drop_last())
    } else {
        s
    }
}

/// The id of the entry `name` of the folder `sub`, which may be the root (no text).
pub open spec fn id_in(sub: Seq<char>, name: Seq<char>) -> Seq<char> {
    let prefix = without_trailing_slashes(sub);
    if prefix.len() == 0 {
        name
    } else {
        prefix.push('/') + name
    }
}

/// What one entry of the folder `sub` is listed as: a note by its id, without its body.
pub open spec fn note_visit(sub: Seq<char>, entry: Result<Entry, Fault>) -> Visit<HeadView> {
    match entry {
        Err(fault) => Err(fault.text),
        Ok(e) => match e.kind {
            Err(fault) => Err(fault.text),
            Ok(kind) => if kind != FileKind::File || !is_note_name(shown(e.name)) {
                Ok(None)
            } else {
                match e.meta {
                    Err(fault) => Err(fault.text),
                    Ok(meta) => Ok(
                        Some(
                            NoteHead {
                                name: id_in(sub, shown(e.name)),
                                modified_ms: modified_of(meta),
                                head: Seq::empty(),
                            },
                        ),
                    ),
                }
            },
        },
    }
}

/// What one entry of the attachments folder is listed as: a file by its name, unless the name
/// begins with a dot.
pub open spec fn attachment_visit(entry: Result<Entry, Fault>) -> Visit<AttachmentView> {
    match entry {
        Err(fault) => Err(fault.text),
        Ok(e) => match e.meta {
            Err(fault) => Err(fault.text),
            Ok(meta) => if !meta.is_file || is_dotted(shown(e.name)) {
                Ok(None)
            } else {
                Ok(
                    Some(
                        AttachmentEntry {
                            name: shown(e.name),
                            size: meta.size,
                            modified_ms: modified_of(meta),
                        },
                    ),
                )
            },
        },
    }
}

/// The message for a folder that still holds something.
pub open spec fn not_empty(path: Seq<char>) -> Seq<char> {
    quoting(Seq::empty(), path, " is not empty"@)
}

/// What one entry of the folder `path` means for its removal: only the marker may be there.
pub open spec fn removal_visit(path: Seq<char>, entry: Result<Entry, Fault>) -> Visit<()> {
    match entry {
        Err(fault) => Err(fault.text),
        Ok(e) => if e.name == utf8(FOLDER_MARKER@) {
            Ok(None)
        } else {
            Err(not_empty(path))
        },
    }
}

/// The notes directly in the folder `sub`.
pub open spec fn notes_in(sub: Seq<char>, list: Listing) -> Result<Seq<HeadView>, Seq<char>> {
    gathered(list.map_values(|entry: Result<Entry, Fault>| note_visit(sub, entry)))
}

/// The attachments in the attachments folder.
pub open spec fn attachments_in(list: Listing) -> Result<Seq<AttachmentView>, Seq<char>> {
    gathered(list.map_values(|entry: Result<Entry, Fault>| attachment_visit(entry)))
}

/// Whether the folder `path` may be removed.
pub open spec fn removable(path: Seq<char>, list: Listing) -> Result<Seq<()>, Seq<char>> {
    gathered(list.map_values(|entry: Result<Entry, Fault>| removal_visit(path, entry)))
}

proof fn gathering_more<T>(visits: Seq<Visit<T>>, i: int)
    requires
        0 <= i < visits.len(),
    ensures
        gathered(visits.take(i + 1)) == match (gathered(visits.take(i)), visits[i]) {
            (Err(message), _) => Err(message),
            (Ok(_), Err(message)) => Err(message),
            (Ok(list), Ok(None)) => Ok(list),
            (Ok(list), Ok(Some(item))) => Ok(list.push(item)),
        },
{
    assert(visits.take(i + 1).drop_last() == visits.take(i));
}

/// A fault ends the gathering: what follows it does not matter.
proof fn gathering_stops<T>(visits: Seq<Visit<T>>, i: int)
    requires
        0 <= i <= visits.len(),
        gathered(visits.take(i)) is Err,
    ensures
        gathered(visits) == gathered(visits.take(i)),
    decreases visits.len() - i,
{
    if i < visits.len() {
        gathering_more(visits, i);
        gathering_stops(visits, i + 1);
    } else {
        assert(visits.take(i) == visits);
    }
}

/// `s` without the slashes it ends with.
pub fn trim_trailing_slashes(s: &str) -> (res: String)
    ensures
        res@ == without_trailing_slashes(s@),
{
    let chars = chars_of(s);
    let mut n: usize = chars.len();
    assert(s@.take(n as int) == s@);
    while n > 0 && chars[n - 1] == '/'
        invariant
            n <= chars@.len(),
            chars@ == s@,
            without_trailing_slashes(s@) == without_trailing_slashes(s@.take(n as int)),
        decreases n,
    {
        assert(s@.take(n as int).drop_last() == s@.take(n - 1));
        n = n - 1;
    }
    assert(s@.take(n as int) == s@.subrange(0, n as int));
    text_of(&chars, 0, n)
}

fn visit_note(sub: &str, entry: &Result<OsEntry, OsFault>) -> (res: Result<
    Option<NoteHead<String>>,
    String,
>)
    ensures
        match res {
            Ok(Some(head)) => note_visit(sub@, outcome_view(*entry)) == Visit::Ok(Some(head@)),
            Ok(None) => note_visit(sub@, outcome_view(*entry)) == Visit::<HeadView>::Ok(None),
            Err(m) => note_visit(sub@, outcome_view(*entry)) == Visit::<HeadView>::Err(m@),
        },
{
    match entry {
        Err(fault) => Err(fault.text.clone()),
        Ok(e) => match &e.kind {
            Err(fault) => Err(fault.text.clone()),
            Ok(kind) => {
                let name = text_from_utf8_lossy(&e.name);
                if *kind != FileKind::File || !is_md(name.as_str()) {
                    return Ok(None);
                }
                match &e.meta {
                    Err(fault) => Err(fault.text.clone()),
                    Ok(meta) => {
                        let prefix = trim_trailing_slashes(sub);
                        let id = if prefix.as_str().is_empty() {
                            name
                        } else {
                            let mut front = prefix;
                            front.push('/');
                            front.concat(name.as_str())
                        };
                        let head = NoteHead {
                            name: id,
                            modified_ms: modified_ms(meta),
                            head: String::new(),
                        };
                        assert(head@.name =~= id_in(sub@, shown(e.name@)));
                        Ok(Some(head))
                    },
                }
            },
        },
    }
}

/// The notes directly in the folder `sub`, whose content is `list`: the files whose name is a
/// note's, each with its id and its last change, in the order of `list`. The first entry that
/// cannot be read is an error.
pub fn list_notes(sub: &str, list: &OsListing) -> (res: Result<Vec<NoteHead<String>>, String>)
    ensures
        match res {
            Ok(heads) => notes_in(sub@, listing(list@)) == Ok::<Seq<HeadView>, Seq<char>>(
                views(heads@),
            ),
            Err(m) => notes_in(sub@, listing(list@)) == Err::<Seq<HeadView>, Seq<char>>(m@),
        },
{
    let ghost visits = listing(list@).map_values(
        |entry: Result<Entry, Fault>| note_visit(sub@, entry),
    );
    let mut out: Vec<NoteHead<String>> = Vec::new();
    let mut i: usize = 0;
    assert(visits.take(0) =~= Seq::empty());
    assert(views(out@) =~= Seq::empty());
    while i < list.len()
        invariant
            i <= list@.len(),
            visits == listing(list@).map_values(
                |entry: Result<Entry, Fault>| note_visit(sub@, entry),
            ),
            gathered(visits.take(i as int)) == Ok::<Seq<HeadView>, Seq<char>>(views(out@)),
        decreases list@.len() - i,
    {
        proof {
            gathering_more(visits, i as int);
            assert(visits[i as int] == note_visit(sub@, outcome_view(list@[i as int])));
        }
        match visit_note(sub, &list[i]) {
            Err(m) => {
                proof {
                    gathering_stops(visits, i + 1);
                }
                return Err(m);
            },
            Ok(None) => {},
            Ok(Some(head)) => {
                let ghost before = views(out@);
                let ghost view = head@;
                out.push(head);
                assert(views(out@) =~= before.push(view));
            },
        }
        i = i + 1;
    }
    assert(visits.take(visits.len() as int) == visits);
    Ok(out)
}

fn visit_attachment(entry: &Result<OsEntry, OsFault>) -> (res: Result<
    Option<AttachmentEntry<String>>,
    String,
>)
    ensures
        match res {
            Ok(Some(item)) => attachment_visit(outcome_view(*entry)) == Visit::Ok(Some(item@)),
            Ok(None) => attachment_visit(outcome_view(*entry)) == Visit::<AttachmentView>::Ok(
                None,
            ),
            Err(m) => attachment_visit(outcome_view(*entry)) == Visit::<AttachmentView>::Err(m@),
        },
{
    match entry {
        Err(fault) => Err(fault.text.clone()),
        Ok(e) => match &e.meta {
            Err(fault) => Err(fault.text.clone()),
            Ok(meta) => {
                let name = text_from_utf8_lossy(&e.name);
                if !meta.is_file || starts_with_dot(name.as_str()) {
                    Ok(None)
                } else {
                    Ok(
                        Some(
                            AttachmentEntry {
                                name,
                                size: meta.size,
                                modified_ms: modified_ms(meta),
                            },
                        ),
                    )
                }
            },
        },
    }
}

/// The attachments among the entries of the attachments folder: the files whose name does not
/// begin with a dot, each with its size and its last change, in the order of `list`. The first
/// entry that cannot be read is an error.
pub fn list_attachments(list: &OsListing) -> (res: Result<Vec<AttachmentEntry<String>>, String>)
    ensures
        match res {
            Ok(items) => attachments_in(listing(list@)) == Ok::<Seq<AttachmentView>, Seq<char>>(
                views(items@),
            ),
            Err(m) => attachments_in(listing(list@)) == Err::<Seq<AttachmentView>, Seq<char>>(m@),
        },
{
    let ghost visits = listing(list@).map_values(
        |entry: Result<Entry, Fault>| attachment_visit(entry),
    );
    let mut out: Vec<AttachmentEntry<String>> = Vec::new();
    let mut i: usize = 0;
    assert(visits.take(0) =~= Seq::empty());
    assert(views(out@) =~= Seq::empty());
    while i < list.len()
        invariant
            i <= list@.len(),
            visits == listing(list@).map_values(
                |entry: Result<Entry, Fault>| attachment_visit(entry),
            ),
            gathered(visits.take(i as int)) == Ok::<Seq<AttachmentView>, Seq<char>>(views(out@)),
        decreases list@.len() - i,
    {
        proof {
            gathering_more(visits, i as int);
            assert(visits[i as int] == attachment_visit(outcome_view(list@[i as int])));
        }
        match visit_attachment(&list[i]) {
            Err(m) => {
                proof {
                    gathering_stops(visits, i + 1);
                }
                return Err(m);
            },
            Ok(None) => {},
            Ok(Some(item)) => {
                let ghost before = views(out@);
                let ghost view = item@;
                out.push(item);
                assert(views(out@) =~= before.push(view));
            },
        }
        i = i + 1;
    }
    assert(visits.take(visits.len() as int) == visits);
    Ok(out)
}

/// Checks that the folder `path`, whose content is `list`, holds nothing but its marker.
pub fn check_removable(path: &str, list: &OsListing) -> (res: Result<(), String>)
    ensures
        match res {
            Ok(_) => removable(path@, listing(list@)) is Ok,
            Err(m) => removable(path@, listing(list@)) == Err::<Seq<()>, Seq<char>>(m@),
        },
{
    let ghost visits = listing(list@).map_values(
        |entry: Result<Entry, Fault>| removal_visit(path@, entry),
    );
    let marker: Vec<u8> = vstd::slice::slice_to_vec(FOLDER_MARKER.as_bytes());
    let mut i: usize = 0;
    assert(visits.take(0) =~= Seq::empty());
    while i < list.len()
        invariant
            i <= list@.len(),
            marker@ == utf8(FOLDER_MARKER@),
            visits == listing(list@).map_values(
                |entry: Result<Entry, Fault>| removal_visit(path@, entry),
            ),
            gathered(visits.take(i as int)) is Ok,
        decreases list@.len() - i,
    {
        proof {
            gathering_more(visits, i as int);
            assert(visits[i as int] == removal_visit(path@, outcome_view(list@[i as int])));
            if visits[i as int] is Err {
                gathering_stops(visits, i + 1);
            }
        }
        match &list[i] {
            Err(fault) => {
                return Err(fault.text.clone());
            },
            Ok(e) => {
                if !same_bytes(&e.name, &marker) {
                    proof {
                        reveal_strlit("");
                    }
                    assert(""@ =~= Seq::<char>::empty());
                    return Err(quoted("", path, " is not empty"));
                }
            },
        }
        i = i + 1;
    }
    assert(visits.take(visits.len() as int) == visits);
    Ok(())
}

/// A folder may be removed exactly if all its entries can be read and are its marker; so a
/// removal that is refused has not yet touched the marker.
pub proof fn only_a_marked_folder_is_removable(path: Seq<char>, list: Listing)
    ensures
        removable(path, list) is Ok <==> forall|i: int|
            0 <= i < list.len() ==> (#[trigger] list[i] matches Ok(e) && e.name == utf8(
                FOLDER_MARKER@,
            )),
    decreases list.len(),
{
    let visit = |entry: Result<Entry, Fault>| removal_visit(path, entry);
    let visits = list.map_values(visit);
    if list.len() > 0 {
        let before = list.drop_last();
        only_a_marked_folder_is_removable(path, before);
        assert(before.map_values(visit) =~= visits.drop_last());
        assert(visits.last() == removal_visit(path, list.last()));
        assert forall|i: int| 0 <= i < before.len() implies before[i] == list[i] by {}
        if removable(path, list) is Ok {
            assert forall|i: int| 0 <= i < list.len() implies (#[trigger] list[i] matches Ok(e)
                && e.name == utf8(FOLDER_MARKER@)) by {
                if i < before.len() {
                    assert(before[i] == list[i]);
                }
            }
        } else {
            if forall|i: int|
                0 <= i < list.len() ==> (#[trigger] list[i] matches Ok(e) && e.name == utf8(
                    FOLDER_MARKER@,
                )) {
                assert forall|i: int| 0 <= i < before.len() implies (#[trigger] before[i] matches Ok(
                    e,
                ) && e.name == utf8(FOLDER_MARKER@)) by {
                    assert(before[i] == list[i]);
                }
                assert(list[list.len() - 1] == list.last());
            }
        }
    }
}

} // verus!
