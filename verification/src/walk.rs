//! The recursive walks over the picked folder: one that collects notes, one that collects
//! folders.
//!
//! A walk never follows a symbolic link, so it can neither leave the folder nor loop. It stays out
//! of dot-folders, of `node_modules` and of the attachments folder at the root.

use vstd::prelude::*;
use vstd::slice::slice_to_vec;

use crate::fsio::{
    answers, is_dataless, is_evicted, listing, modified_ms, modified_of, outcome_view, stringify,
    Entry, Fault, FileKind, FsRequest, Listing, OsEntry, OsFault, OsListing, OsReply, OsRequest,
    Reply, Request,
};
use crate::listing::views;
use crate::names::{is_md, is_note_name, is_skipped_dir, is_skipped_name, ATTACHMENTS_DIR};
use crate::path::{components, push_text, pushed_text, FsPath, Part, Path};
use crate::resolve::utf8;
use crate::text::{chars_of, same_text, shown, text_from_utf8_lossy};

verus! {

/// Bytes of each note that are scanned for the list preview.
pub const PREVIEW_SCAN_BYTES: u64 = 500;

/// What a walk collects.
#[derive(Clone, Copy, PartialEq, Eq, Structural)]
pub enum WalkKind {
    /// Notes with the head of their body.
    Heads,
    /// Notes with their whole body.
    Full,
    /// Folders.
    Folders,
}

/// One find of a walk: its path below the root with `/` between the names and, for a note, its
/// last change and the part of its body that was asked for.
pub struct Found<S> {
    pub rel: S,
    pub modified_ms: u128,
    pub body: S,
}

/// A find in contracts.
pub type FoundView = Found<Seq<char>>;

impl View for Found<String> {
    type V = FoundView;

    open spec fn view(&self) -> FoundView {
        Found { rel: self.rel@, modified_ms: self.modified_ms, body: self.body@ }
    }
}

/// An entry that a walk has still to look at, of the folder `dir`, whose text below the root is
/// `rel`.
pub struct Todo<P, B, E> {
    pub dir: P,
    pub rel: B,
    pub entry: E,
}

/// An entry to look at in contracts.
pub type TodoView = Todo<Path, Seq<u8>, Result<Entry, Fault>>;

/// An entry to look at.
pub type OsTodo = Todo<FsPath, Vec<u8>, Result<OsEntry, OsFault>>;

impl View for Todo<FsPath, Vec<u8>, Result<OsEntry, OsFault>> {
    type V = TodoView;

    open spec fn view(&self) -> TodoView {
        Todo { dir: self.dir@, rel: self.rel@, entry: outcome_view(self.entry) }
    }
}

/// What a walk is waiting for.
pub enum Asked<P, B> {
    /// The content of a folder, whose text below the root is `rel`.
    Folder { dir: P, rel: B },
    /// The body of a note.
    Body { path: P, rel: B, modified_ms: u128 },
}

/// A walk that waits for an answer; in contracts.
pub struct WalkView {
    pub kind: WalkKind,
    pub found: Seq<FoundView>,
    /// What is left to look at, the next one first.
    pub todo: Seq<TodoView>,
    pub asked: Asked<Path, Seq<u8>>,
}

/// A walk that waits for an answer.
pub struct Walk {
    pub kind: WalkKind,
    pub found: Vec<Found<String>>,
    /// What is left to look at, the next one last.
    pub stack: Vec<OsTodo>,
    pub asked: Asked<FsPath, Vec<u8>>,
}

/// The entries on a stack, the top one first.
pub open spec fn unstacked(stack: Seq<OsTodo>) -> Seq<TodoView> {
    Seq::new(stack.len(), |i: int| stack[stack.len() - 1 - i]@)
}

impl View for Asked<FsPath, Vec<u8>> {
    type V = Asked<Path, Seq<u8>>;

    open spec fn view(&self) -> Asked<Path, Seq<u8>> {
        match self {
            Asked::Folder { dir, rel } => Asked::Folder { dir: dir@, rel: rel@ },
            Asked::Body { path, rel, modified_ms } => Asked::Body {
                path: path@,
                rel: rel@,
                modified_ms: *modified_ms,
            },
        }
    }
}

impl View for Walk {
    type V = WalkView;

    open spec fn view(&self) -> WalkView {
        WalkView {
            kind: self.kind,
            found: views(self.found@),
            todo: unstacked(self.stack@),
            asked: self.asked@,
        }
    }
}

/// What a walk comes to; in contracts.
pub enum WalkStepView {
    More(WalkView),
    Done(Seq<FoundView>),
    Failed(Seq<char>),
}

/// What a walk comes to.
pub enum WalkStep {
    /// Another answer is needed.
    More(Walk),
    /// All finds, in the order in which the folders report their entries, those of a folder in
    /// the place of the folder.
    Done(Vec<Found<String>>),
    Failed(String),
}

impl View for WalkStep {
    type V = WalkStepView;

    open spec fn view(&self) -> WalkStepView {
        match self {
            WalkStep::More(next) => WalkStepView::More(next@),
            WalkStep::Done(found) => WalkStepView::Done(views(found@)),
            WalkStep::Failed(message) => WalkStepView::Failed(message@),
        }
    }
}

/// `s` with every backslash made a slash.
pub open spec fn slashed(s: Seq<char>) -> Seq<char> {
    s.map_values(
        |c: char|
            if c == '\\' {
                '/'
            } else {
                c
            },
    )
}

/// The id of the entry whose text below the root is `rel`.
pub open spec fn id_of(rel: Seq<u8>) -> Seq<char> {
    slashed(shown(rel))
}

/// What a walk does with one entry.
pub enum Look<P, B, S> {
    /// Nothing.
    Pass,
    /// It goes into the folder.
    Enter { dir: P, rel: B },
    /// It lists the note without reading it.
    List { rel: B, modified_ms: u128 },
    /// It reads the note.
    Read { path: P, rel: B, modified_ms: u128 },
    /// It fails.
    Fail(S),
}

/// Whether a walk stays out of the folder `name`, found in the root or elsewhere.
pub open spec fn is_barred(in_root: bool, name: Seq<char>) -> bool {
    is_skipped_name(name) || (in_root && name == ATTACHMENTS_DIR@)
}

/// What a walk does with one entry: it enters the folders that are not barred; a walk for notes
/// reads the files whose name is a note's, or lists those whose content is evicted.
pub open spec fn look(kind: WalkKind, t: TodoView) -> Look<Path, Seq<u8>, Seq<char>> {
    match t.entry {
        Err(fault) => Look::Fail(fault.text),
        Ok(e) => match e.kind {
            Err(fault) => Look::Fail(fault.text),
            Ok(FileKind::Dir) => if is_barred(t.rel.len() == 0, shown(e.name)) {
                Look::Pass
            } else {
                Look::Enter {
                    dir: t.dir.push(Part::Name(e.name)),
                    rel: pushed_text(t.rel, e.name),
                }
            },
            Ok(FileKind::File) => if kind == WalkKind::Folders || !is_note_name(shown(e.name)) {
                Look::Pass
            } else {
                match e.meta {
                    Err(fault) => Look::Fail(fault.text),
                    Ok(meta) => if is_evicted(meta) {
                        Look::List {
                            rel: pushed_text(t.rel, e.name),
                            modified_ms: modified_of(meta),
                        }
                    } else {
                        Look::Read {
                            path: t.dir.push(Part::Name(e.name)),
                            rel: pushed_text(t.rel, e.name),
                            modified_ms: modified_of(meta),
                        }
                    },
                }
            },
            Ok(_) => Look::Pass,
        },
    }
}

/// The find that a folder is: only a walk for folders lists it.
pub open spec fn folder_find(kind: WalkKind, rel: Seq<u8>) -> Seq<FoundView> {
    if kind == WalkKind::Folders {
        seq![Found { rel: id_of(rel), modified_ms: 0, body: Seq::empty() }]
    } else {
        Seq::empty()
    }
}

/// Looks at the entries that are left until one needs an answer, or none is left.
pub open spec fn settled(
    kind: WalkKind,
    found: Seq<FoundView>,
    todo: Seq<TodoView>,
) -> WalkStepView
    decreases todo.len(),
{
    if todo.len() == 0 {
        WalkStepView::Done(found)
    } else {
        let rest = todo.drop_first();
        match look(kind, todo[0]) {
            Look::Pass => settled(kind, found, rest),
            Look::List { rel, modified_ms } => settled(
                kind,
                found.push(Found { rel: id_of(rel), modified_ms, body: Seq::empty() }),
                rest,
            ),
            Look::Enter { dir, rel } => WalkStepView::More(
                WalkView {
                    kind,
                    found: found + folder_find(kind, rel),
                    todo: rest,
                    asked: Asked::Folder { dir, rel },
                },
            ),
            Look::Read { path, rel, modified_ms } => WalkStepView::More(
                WalkView { kind, found, todo: rest, asked: Asked::Body { path, rel, modified_ms } },
            ),
            Look::Fail(message) => WalkStepView::Failed(message),
        }
    }
}

/// The entries of a folder, as things to look at.
pub open spec fn todos(dir: Path, rel: Seq<u8>, list: Listing) -> Seq<TodoView> {
    Seq::new(list.len(), |i: int| Todo { dir, rel, entry: list[i] })
}

/// The walk over the folder `dir`, at its beginning.
pub open spec fn walking(kind: WalkKind, dir: Path) -> WalkView {
    WalkView {
        kind,
        found: Seq::empty(),
        todo: Seq::empty(),
        asked: Asked::Folder { dir, rel: Seq::empty() },
    }
}

/// The operation that comes next.
pub open spec fn walk_request(w: WalkView) -> Request {
    match w.asked {
        Asked::Folder { dir, .. } => FsRequest::ReadDir(dir),
        Asked::Body { path, .. } => if w.kind == WalkKind::Full {
            FsRequest::ReadFile(path)
        } else {
            FsRequest::ReadHead(path, PREVIEW_SCAN_BYTES)
        },
    }
}

/// What an answer leads to: the entries of a folder come before all else that is left; a body
/// completes its note. A fault ends the walk.
pub open spec fn walk_next(w: WalkView, reply: Reply) -> WalkStepView {
    match (w.asked, reply) {
        (Asked::Folder { dir, rel }, Reply::Entries(Ok(list))) => settled(
            w.kind,
            w.found,
            todos(dir, rel, list) + w.todo,
        ),
        (Asked::Body { rel, modified_ms, .. }, Reply::Bytes(Ok(bytes))) => settled(
            w.kind,
            w.found.push(Found { rel: id_of(rel), modified_ms, body: shown(bytes) }),
            w.todo,
        ),
        (_, Reply::Entries(Err(fault))) => WalkStepView::Failed(fault.text),
        (_, Reply::Bytes(Err(fault))) => WalkStepView::Failed(fault.text),
        _ => WalkStepView::Failed(Seq::empty()),
    }
}

fn with_slashes(s: &str) -> (res: String)
    ensures
        res@ == slashed(s@),
{
    let chars = chars_of(s);
    let mut out = String::new();
    let mut i: usize = 0;
    while i < chars.len()
        invariant
            i <= chars@.len(),
            chars@ == s@,
            out@ == slashed(s@.take(i as int)),
        decreases chars@.len() - i,
    {
        let c: char = chars[i];
        if c == '\\' {
            out.push('/');
        } else {
            out.push(c);
        }
        i = i + 1;
        assert(slashed(s@.take(i as int)) =~= slashed(s@.take(i - 1)).push(slashed(s@)[i - 1]));
    }
    assert(s@.take(s@.len() as int) == s@);
    out
}

/// The id of the entry whose text below the root is `rel`: with `/` between the names on every
/// system.
pub fn note_id(rel: &Vec<u8>) -> (res: String)
    ensures
        res@ == id_of(rel@),
{
    let text = text_from_utf8_lossy(rel);
    with_slashes(text.as_str())
}

impl View for Look<FsPath, Vec<u8>, String> {
    type V = Look<Path, Seq<u8>, Seq<char>>;

    open spec fn view(&self) -> Look<Path, Seq<u8>, Seq<char>> {
        match self {
            Look::Pass => Look::Pass,
            Look::Enter { dir, rel } => Look::Enter { dir: dir@, rel: rel@ },
            Look::List { rel, modified_ms } => Look::List {
                rel: rel@,
                modified_ms: *modified_ms,
            },
            Look::Read { path, rel, modified_ms } => Look::Read {
                path: path@,
                rel: rel@,
                modified_ms: *modified_ms,
            },
            Look::Fail(message) => Look::Fail(message@),
        }
    }
}

fn below(rel: &Vec<u8>, name: &Vec<u8>) -> (res: Vec<u8>)
    ensures
        res@ == pushed_text(rel@, name@),
{
    let mut out = slice_to_vec(rel.as_slice());
    push_text(&mut out, name);
    out
}

/// What a walk does with one entry.
pub fn look_at(kind: WalkKind, t: &OsTodo) -> (res: Look<FsPath, Vec<u8>, String>)
    ensures
        res@ == look(kind, t@),
{
    match &t.entry {
        Err(fault) => Look::Fail(fault.text.clone()),
        Ok(e) => match &e.kind {
            Err(fault) => Look::Fail(fault.text.clone()),
            Ok(entry_kind) => {
                let name = text_from_utf8_lossy(&e.name);
                match *entry_kind {
                    FileKind::Dir => {
                        if is_skipped_dir(name.as_str()) || (t.rel.len() == 0 && same_text(
                            name.as_str(),
                            ATTACHMENTS_DIR,
                        )) {
                            Look::Pass
                        } else {
                            Look::Enter {
                                dir: t.dir.join(slice_to_vec(e.name.as_slice())),
                                rel: below(&t.rel, &e.name),
                            }
                        }
                    },
                    FileKind::File => {
                        if kind == WalkKind::Folders || !is_md(name.as_str()) {
                            return Look::Pass;
                        }
                        match &e.meta {
                            Err(fault) => Look::Fail(fault.text.clone()),
                            Ok(meta) => {
                                let rel = below(&t.rel, &e.name);
                                let modified_ms = modified_ms(meta);
                                if is_dataless(meta) {
                                    Look::List { rel, modified_ms }
                                } else {
                                    Look::Read {
                                        path: t.dir.join(slice_to_vec(e.name.as_slice())),
                                        rel,
                                        modified_ms,
                                    }
                                }
                            },
                        }
                    },
                    _ => Look::Pass,
                }
            },
        },
    }
}

fn settle(kind: WalkKind, finds: Vec<Found<String>>, entries: Vec<OsTodo>) -> (res: WalkStep)
    ensures
        res@ == settled(kind, views(finds@), unstacked(entries@)),
{
    let ghost end = settled(kind, views(finds@), unstacked(entries@));
    let mut found = finds;
    let mut stack = entries;
    while stack.len() > 0
        invariant
            end == settled(kind, views(finds@), unstacked(entries@)),
            end == settled(kind, views(found@), unstacked(stack@)),
        decreases stack@.len(),
    {
        let ghost todo = unstacked(stack@);
        let top = stack.pop();
        match top {
            None => {},
            Some(t) => {
                assert(todo[0] == t@);
                assert(unstacked(stack@) =~= todo.drop_first());
                match look_at(kind, &t) {
                    Look::Pass => {},
                    Look::List { rel, modified_ms } => {
                        let ghost before = views(found@);
                        let find = Found { rel: note_id(&rel), modified_ms, body: String::new() };
                        let ghost view = find@;
                        found.push(find);
                        assert(view.body =~= Seq::empty());
                        assert(views(found@) =~= before.push(view));
                    },
                    Look::Enter { dir, rel } => {
                        let ghost before = views(found@);
                        if kind == WalkKind::Folders {
                            let find = Found {
                                rel: note_id(&rel),
                                modified_ms: 0,
                                body: String::new(),
                            };
                            let ghost view = find@;
                            found.push(find);
                            assert(view.body =~= Seq::empty());
                            assert(views(found@) =~= before.push(view));
                        }
                        assert(views(found@) =~= before + folder_find(kind, rel@));
                        return WalkStep::More(
                            Walk { kind, found, stack, asked: Asked::Folder { dir, rel } },
                        );
                    },
                    Look::Read { path, rel, modified_ms } => {
                        return WalkStep::More(
                            Walk {
                                kind,
                                found,
                                stack,
                                asked: Asked::Body { path, rel, modified_ms },
                            },
                        );
                    },
                    Look::Fail(message) => {
                        return WalkStep::Failed(message);
                    },
                }
            },
        }
    }
    assert(unstacked(stack@) =~= Seq::empty());
    WalkStep::Done(found)
}

/// Puts the entries of a folder on the stack, the first one on top.
fn stack_entries(stack: &mut Vec<OsTodo>, dir: &FsPath, rel: &Vec<u8>, list: OsListing)
    ensures
        unstacked(final(stack)@) == todos(dir@, rel@, listing(list@)) + unstacked(old(stack)@),
{
    let ghost all = listing(list@);
    let ghost before = unstacked(stack@);
    let mut list = list;
    assert(todos(dir@, rel@, all).skip(all.len() as int) + before =~= before);
    while list.len() > 0
        invariant
            list@.len() <= all.len(),
            listing(list@) == all.take(list@.len() as int),
            unstacked(stack@) == todos(dir@, rel@, all).skip(list@.len() as int) + before,
        decreases list@.len(),
    {
        let ghost n = list@.len() as int;
        let ghost was = unstacked(stack@);
        let ghost whole = list@;
        let last = list.pop();
        match last {
            None => {},
            Some(entry) => {
                assert(outcome_view(entry) == all[n - 1]) by {
                    assert(listing(whole)[n - 1] == outcome_view(whole[n - 1]));
                    assert(all.take(n)[n - 1] == all[n - 1]);
                }
                assert(listing(list@) =~= all.take(n - 1)) by {
                    assert forall|i: int| 0 <= i < n - 1 implies listing(list@)[i] == all.take(
                        n - 1,
                    )[i] by {
                        assert(listing(whole)[i] == all.take(n)[i]);
                    }
                }
                let t: OsTodo = Todo { dir: dir.clone(), rel: slice_to_vec(rel.as_slice()), entry };
                let ghost view = t@;
                let ghost old_stack = stack@;
                stack.push(t);
                assert(unstacked(stack@) =~= seq![view] + was) by {
                    assert forall|i: int| 1 <= i < stack@.len() implies unstacked(stack@)[i]
                        == was[i - 1] by {
                        assert(stack@[stack@.len() - 1 - i] == old_stack[stack@.len() - 1 - i]);
                    }
                }
                assert(unstacked(stack@) =~= todos(dir@, rel@, all).skip(n - 1) + before);
            },
        }
    }
    assert(todos(dir@, rel@, all).skip(0) =~= todos(dir@, rel@, all));
}

/// Begins to collect the notes below `dir`, with their whole body or with its head.
pub fn collect_md(dir: &str, full: bool) -> (res: Walk)
    ensures
        res@ == walking(
            if full {
                WalkKind::Full
            } else {
                WalkKind::Heads
            },
            components(utf8(dir@)),
        ),
{
    let kind = if full {
        WalkKind::Full
    } else {
        WalkKind::Heads
    };
    Walk::over(kind, dir)
}

/// Begins to collect the folders below `dir`, those kept alive by a marker included.
pub fn collect_folders(dir: &str) -> (res: Walk)
    ensures
        res@ == walking(WalkKind::Folders, components(utf8(dir@))),
{
    Walk::over(WalkKind::Folders, dir)
}

impl Walk {
    fn over(kind: WalkKind, dir: &str) -> (res: Walk)
        ensures
            res@ == walking(kind, components(utf8(dir@))),
    {
        let res = Walk {
            kind,
            found: Vec::new(),
            stack: Vec::new(),
            asked: Asked::Folder { dir: FsPath::parse(dir.as_bytes()), rel: Vec::new() },
        };
        assert(res@.found =~= Seq::empty());
        assert(res@.todo =~= Seq::empty());
        res
    }

    /// The operation that comes next.
    pub fn request(&self) -> (res: OsRequest)
        ensures
            res@ == walk_request(self@),
    {
        match &self.asked {
            Asked::Folder { dir, .. } => FsRequest::ReadDir(dir.clone()),
            Asked::Body { path, .. } => if self.kind == WalkKind::Full {
                FsRequest::ReadFile(path.clone())
            } else {
                FsRequest::ReadHead(path.clone(), PREVIEW_SCAN_BYTES)
            },
        }
    }

    /// Goes on with the answer.
    pub fn step(self, reply: OsReply) -> (res: WalkStep)
        requires
            answers(walk_request(self@), reply@),
        ensures
            res@ == walk_next(self@, reply@),
    {
        match (self.asked, reply) {
            (Asked::Folder { dir, rel }, OsReply::Entries(Ok(list))) => {
                let mut stack = self.stack;
                stack_entries(&mut stack, &dir, &rel, list);
                settle(self.kind, self.found, stack)
            },
            (Asked::Body { rel, modified_ms, .. }, OsReply::Bytes(Ok(bytes))) => {
                let mut found = self.found;
                let ghost before = views(found@);
                let find = Found {
                    rel: note_id(&rel),
                    modified_ms,
                    body: text_from_utf8_lossy(&bytes),
                };
                let ghost view = find@;
                found.push(find);
                assert(views(found@) =~= before.push(view));
                settle(self.kind, found, self.stack)
            },
            (_, OsReply::Entries(Err(fault))) => WalkStep::Failed(stringify(fault)),
            (_, OsReply::Bytes(Err(fault))) => WalkStep::Failed(stringify(fault)),
            _ => WalkStep::Failed(String::new()),
        }
    }
}

} // verus!
