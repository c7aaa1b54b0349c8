//! The commands, carried out on a disk in memory.

use std::collections::BTreeMap;

use gravity_notes::commands::{
    attachment_list, attachment_read, attachment_remove, attachment_write, notes_create_folder,
    notes_exists, notes_list, notes_list_dir, notes_list_folders, notes_move_dir, notes_read_all,
    notes_read_opt, notes_remove, notes_remove_dir, notes_remove_dir_all, notes_rename, notes_stat,
    notes_write, reveal_path,
};
use gravity_notes::confine::{confine_to_root, ConfineStep, LINK_LIMIT};
use gravity_notes::fsio::{
    is_answer, DirEntry, FileKind, FileMeta, FsRequest, IoFault, OsFault, OsReply, OsRequest,
};
use gravity_notes::job::{Job, OsEnd, OsOutcome, Outcome};
use gravity_notes::listing::{AttachmentEntry, NoteFull, NoteHead};
use gravity_notes::names::FOLDER_MARKER;
use gravity_notes::path::FsPath;
use gravity_notes::resolve::{resolve_within, tmp_sibling};
use gravity_notes::watch::watch_rel_path;

#[derive(Clone)]
enum Node {
    Dir,
    File { bytes: Vec<u8>, modified: u128, flags: u32 },
    Link(String),
}

/// Entries by their absolute path.
struct Disk {
    nodes: BTreeMap<String, Node>,
    clock: u128,
    /// Every operation that was asked for, by its name and its paths.
    log: Vec<String>,
    /// Operations that fail, by what the log says of them.
    broken: Vec<String>,
}

fn fault(not_found: bool, text: &str) -> OsFault {
    IoFault { not_found, text: text.to_string() }
}

fn missing() -> OsFault {
    fault(true, "No such file or directory (os error 2)")
}

fn not_a_folder() -> OsFault {
    fault(false, "Not a directory (os error 20)")
}

fn text(path: &FsPath) -> String {
    String::from_utf8(path.to_bytes()).unwrap()
}

fn parent(path: &str) -> String {
    match path.rfind('/') {
        Some(0) | None => "/".to_string(),
        Some(i) => path[..i].to_string(),
    }
}

fn child(dir: &str, name: &str) -> String {
    if dir == "/" {
        format!("/{name}")
    } else {
        format!("{dir}/{name}")
    }
}

/// The place that a link names.
fn led(link: &str, to: &str) -> String {
    if to.starts_with('/') {
        to.to_string()
    } else {
        child(&parent(link), to)
    }
}

const ROOT: &str = "/home/notes";

/// The last change of every folder.
const FOLDER_TIME: u128 = 500;

impl Disk {
    fn new() -> Disk {
        let mut nodes = BTreeMap::new();
        nodes.insert("/".to_string(), Node::Dir);
        nodes.insert("/home".to_string(), Node::Dir);
        nodes.insert(ROOT.to_string(), Node::Dir);
        Disk { nodes, clock: 1000, log: Vec::new(), broken: Vec::new() }
    }

    /// The real path of an entry.
    fn lookup(&self, path: &str) -> Result<String, OsFault> {
        let mut at = "/".to_string();
        for name in path.split('/').filter(|n| !n.is_empty()) {
            match self.nodes.get(&at) {
                Some(Node::Dir) => {}
                _ => return Err(not_a_folder()),
            }
            if name == ".." {
                at = parent(&at);
                continue;
            }
            at = child(&at, name);
            match self.nodes.get(&at) {
                None => return Err(missing()),
                Some(Node::Link(to)) => at = self.lookup(&led(&at, to))?,
                Some(_) => {}
            }
        }
        Ok(at)
    }

    /// The real path of an entry that may be yet to be made.
    fn place(&self, path: &str) -> Result<String, OsFault> {
        match self.lookup(path) {
            Ok(found) => Ok(found),
            Err(_) => {
                let up = self.lookup(&parent(path))?;
                match self.nodes.get(&up) {
                    Some(Node::Dir) => Ok(child(&up, path.rsplit('/').next().unwrap())),
                    _ => Err(not_a_folder()),
                }
            }
        }
    }

    /// The path of an entry itself, links on the way followed.
    fn entry(&self, path: &str) -> Result<String, OsFault> {
        let up = self.lookup(&parent(path))?;
        let found = child(&up, path.rsplit('/').next().unwrap());
        if self.has(&found) {
            Ok(found)
        } else {
            Err(missing())
        }
    }

    fn put(&mut self, path: &str, bytes: &[u8]) {
        self.mkdirs(&parent(path));
        self.clock += 1;
        let node = Node::File { bytes: bytes.to_vec(), modified: self.clock, flags: 0 };
        self.nodes.insert(path.to_string(), node);
    }

    fn mkdirs(&mut self, path: &str) {
        if path != "/" {
            self.mkdirs(&parent(path));
        }
        self.nodes.entry(path.to_string()).or_insert(Node::Dir);
    }

    fn has(&self, path: &str) -> bool {
        self.nodes.contains_key(path)
    }

    fn is_file(&self, path: &str) -> bool {
        matches!(self.nodes.get(path), Some(Node::File { .. }))
    }

    fn is_dir(&self, path: &str) -> bool {
        matches!(self.nodes.get(path), Some(Node::Dir))
    }

    fn bytes(&self, path: &str) -> Result<Vec<u8>, OsFault> {
        match self.nodes.get(&self.lookup(path)?) {
            Some(Node::File { bytes, .. }) => Ok(bytes.clone()),
            _ => Err(fault(false, "Is a directory (os error 21)")),
        }
    }

    fn children(&self, dir: &str) -> Vec<String> {
        let prefix = child(dir, "");
        self.nodes
            .keys()
            .filter(|p| p.starts_with(&prefix) && p.len() > prefix.len())
            .filter(|p| !p[prefix.len()..].contains('/'))
            .map(|p| p[prefix.len()..].to_string())
            .collect()
    }

    fn meta(&self, path: &str) -> Result<FileMeta, OsFault> {
        match self.nodes.get(path) {
            Some(Node::File { bytes, modified, flags }) => Ok(FileMeta {
                is_file: true,
                size: bytes.len() as u64,
                modified: Some(*modified),
                flags: *flags,
            }),
            Some(_) => Ok(FileMeta {
                is_file: false,
                size: 0,
                modified: Some(FOLDER_TIME),
                flags: 0,
            }),
            None => Err(missing()),
        }
    }

    fn rename(&mut self, from: &str, to: &str) -> Result<(), OsFault> {
        let from = child(&self.lookup(&parent(from))?, from.rsplit('/').next().unwrap());
        let to = child(&self.lookup(&parent(to))?, to.rsplit('/').next().unwrap());
        if !self.has(&from) {
            return Err(missing());
        }
        if from == to {
            return Ok(());
        }
        if self.is_dir(&to) && !self.children(&to).is_empty() {
            return Err(fault(false, "Directory not empty (os error 66)"));
        }
        let below = child(&from, "");
        let moved: Vec<String> = self
            .nodes
            .keys()
            .filter(|p| **p == from || p.starts_with(&below))
            .cloned()
            .collect();
        for old in moved {
            let node = self.nodes.remove(&old).unwrap();
            self.nodes.insert(format!("{to}{}", &old[from.len()..]), node);
        }
        Ok(())
    }

    fn describe(request: &OsRequest) -> String {
        match request {
            FsRequest::Canonicalize(p) => format!("canonicalize {}", text(p)),
            FsRequest::ReadLink(p) => format!("readlink {}", text(p)),
            FsRequest::Metadata(p) => format!("metadata {}", text(p)),
            FsRequest::Exists(p) => format!("exists {}", text(p)),
            FsRequest::ReadDir(p) => format!("readdir {}", text(p)),
            FsRequest::ReadFile(p) => format!("read {}", text(p)),
            FsRequest::ReadHead(p, n) => format!("head {} {n}", text(p)),
            FsRequest::WriteFile(p, _) => format!("write {}", text(p)),
            FsRequest::CreateDirAll(p) => format!("mkdirs {}", text(p)),
            FsRequest::Rename(a, b) => format!("rename {} {}", text(a), text(b)),
            FsRequest::Copy(a, b) => format!("copy {} {}", text(a), text(b)),
            FsRequest::RemoveFile(p) => format!("rm {}", text(p)),
            FsRequest::RemoveDir(p) => format!("rmdir {}", text(p)),
            FsRequest::RemoveDirAll(p) => format!("rmtree {}", text(p)),
            FsRequest::Reveal(p) => format!("reveal {}", text(p)),
        }
    }

    fn change(&mut self, request: &OsRequest) -> Result<(), OsFault> {
        let what = Disk::describe(request);
        if self.broken.contains(&what) {
            if let FsRequest::RemoveDirAll(p) = request {
                // A removal that fails may have taken a part.
                let path = text(p);
                if let Some(first) = self.children(&path).first() {
                    self.nodes.remove(&child(&path, first));
                }
            }
            return Err(fault(false, "Input/output error (os error 5)"));
        }
        match request {
            FsRequest::WriteFile(p, bytes) => {
                let path = self.place(&text(p))?;
                self.put(&path, bytes);
                Ok(())
            }
            FsRequest::CreateDirAll(p) => {
                let path = text(p);
                let mut missing_parts: Vec<String> = Vec::new();
                let mut at = path.clone();
                while self.lookup(&at).is_err() {
                    missing_parts.push(at.rsplit('/').next().unwrap().to_string());
                    at = parent(&at);
                }
                let mut place = self.lookup(&at)?;
                while let Some(name) = missing_parts.pop() {
                    place = child(&place, &name);
                    self.nodes.insert(place.clone(), Node::Dir);
                }
                Ok(())
            }
            FsRequest::Rename(a, b) => self.rename(&text(a), &text(b)),
            FsRequest::Copy(a, b) => {
                let bytes = self.bytes(&text(a))?;
                let to = self.place(&text(b))?;
                self.put(&to, &bytes);
                Ok(())
            }
            FsRequest::RemoveFile(p) => {
                let path = self.lookup(&text(p))?;
                if !self.is_file(&path) {
                    return Err(fault(false, "Operation not permitted (os error 1)"));
                }
                self.nodes.remove(&path);
                Ok(())
            }
            FsRequest::RemoveDir(p) => {
                let path = self.lookup(&text(p))?;
                if !self.children(&path).is_empty() {
                    return Err(fault(false, "Directory not empty (os error 66)"));
                }
                self.nodes.remove(&path);
                Ok(())
            }
            FsRequest::RemoveDirAll(p) => {
                let path = self.entry(&text(p))?;
                if self.is_file(&path) {
                    return Err(not_a_folder());
                }
                let below = child(&path, "");
                self.nodes.retain(|q, _| *q != path && !q.starts_with(&below));
                Ok(())
            }
            _ => unreachable!(),
        }
    }

    fn perform(&mut self, request: &OsRequest) -> OsReply {
        self.log.push(Disk::describe(request));
        match request {
            FsRequest::Canonicalize(p) => OsReply::Canonical(
                self.lookup(&text(p)).map(|found| FsPath::parse(found.as_bytes())),
            ),
            FsRequest::ReadLink(p) => OsReply::Link(self.entry(&text(p)).map(|found| {
                match self.nodes.get(&found) {
                    Some(Node::Link(to)) => Some(FsPath::parse(to.as_bytes())),
                    _ => None,
                }
            })),
            FsRequest::Metadata(p) => {
                OsReply::Meta(self.lookup(&text(p)).and_then(|found| self.meta(&found)))
            }
            FsRequest::Exists(p) => OsReply::Exists(self.lookup(&text(p)).is_ok()),
            FsRequest::ReadDir(p) => OsReply::Entries(match self.lookup(&text(p)) {
                Err(e) => Err(e),
                Ok(dir) if !self.is_dir(&dir) => Err(not_a_folder()),
                Ok(dir) => Ok(self
                    .children(&dir)
                    .into_iter()
                    .map(|name| {
                        let path = child(&dir, &name);
                        let kind = match self.nodes.get(&path).unwrap() {
                            Node::Dir => FileKind::Dir,
                            Node::File { .. } => FileKind::File,
                            Node::Link(_) => FileKind::Symlink,
                        };
                        Ok(DirEntry {
                            name: name.into_bytes(),
                            kind: Ok(kind),
                            meta: self.meta(&path),
                        })
                    })
                    .collect()),
            }),
            FsRequest::ReadFile(p) => OsReply::Bytes(self.bytes(&text(p))),
            FsRequest::ReadHead(p, n) => OsReply::Bytes(
                self.bytes(&text(p)).map(|b| b.into_iter().take(*n as usize).collect()),
            ),
            FsRequest::Reveal(p) => OsReply::Launched(Ok(!text(p).ends_with("Stuck.md"))),
            _ => OsReply::Done(self.change(request)),
        }
    }

    fn run(&mut self, job: Job) -> OsEnd {
        let mut job = job;
        while let Some(request) = job.request() {
            let reply = self.perform(&request);
            assert!(is_answer(&request, &reply));
            job = job.resume(reply);
        }
        job.end().unwrap()
    }
}

fn root() -> String {
    ROOT.to_string()
}

fn at(rel: &str) -> String {
    child(ROOT, rel)
}

fn write(disk: &mut Disk, name: &str, content: &str) -> Result<u128, String> {
    match disk.run(notes_write(root(), name.into(), content.into()))? {
        Outcome::Stamp(ms) => Ok(ms),
        _ => unreachable!(),
    }
}

fn read(disk: &mut Disk, name: &str) -> Result<Option<NoteFull<String>>, String> {
    match disk.run(notes_read_opt(root(), name.into()))? {
        Outcome::Note(note) => Ok(note),
        _ => unreachable!(),
    }
}

fn unit(end: OsEnd) -> Result<(), String> {
    match end? {
        Outcome::Unit => Ok(()),
        _ => unreachable!(),
    }
}

fn heads(end: OsEnd) -> Result<Vec<NoteHead<String>>, String> {
    match end? {
        Outcome::Heads(list) => Ok(list),
        _ => unreachable!(),
    }
}

fn names(list: Vec<NoteHead<String>>) -> Vec<String> {
    let mut ids: Vec<String> = list.into_iter().map(|n| n.name).collect();
    ids.sort();
    ids
}

fn full(end: OsEnd) -> Result<Vec<NoteFull<String>>, String> {
    match end? {
        Outcome::Notes(list) => Ok(list),
        _ => unreachable!(),
    }
}

fn folders(disk: &mut Disk) -> Vec<String> {
    match disk.run(notes_list_folders(root())) {
        Ok(Outcome::Folders(list)) => list,
        _ => unreachable!(),
    }
}

fn attachments(disk: &mut Disk) -> Vec<AttachmentEntry<String>> {
    match disk.run(attachment_list(root())) {
        Ok(Outcome::Attachments(list)) => list,
        _ => unreachable!(),
    }
}

fn fetch(disk: &mut Disk, name: &str) -> Result<Option<Vec<u8>>, String> {
    match disk.run(attachment_read(root(), name.into()))? {
        Outcome::Bytes(bytes) => Ok(bytes),
        _ => unreachable!(),
    }
}

fn stamp(disk: &mut Disk, name: &str) -> Result<Option<u128>, String> {
    match disk.run(notes_stat(root(), name.into()))? {
        Outcome::MaybeStamp(ms) => Ok(ms),
        _ => unreachable!(),
    }
}

fn rename(disk: &mut Disk, from: &str, to: &str) -> Result<OsOutcome, String> {
    disk.run(notes_rename(root(), from.into(), to.into()))
}

#[test]
fn writes_and_reads_a_nested_note_creating_folders() {
    let mut disk = Disk::new();
    write(&mut disk, "Work/Sub/Note.md", "hello").unwrap();

    let note = read(&mut disk, "Work/Sub/Note.md").unwrap().unwrap();
    assert_eq!(note.content, "hello");
    assert!(disk.is_file(&at("Work/Sub/Note.md")));
}

#[test]
fn list_and_read_all_recurse_returning_forward_slash_ids() {
    let mut disk = Disk::new();
    write(&mut disk, "Inbox.md", "a").unwrap();
    write(&mut disk, "Work/Roadmap.md", "b").unwrap();
    write(&mut disk, "Work/Sub/Deep.md", "c").unwrap();
    disk.put(&at(".gravity-notes.json"), b"{}");
    disk.put(&at(".hidden/Secret.md"), b"x");
    disk.put(&at("node_modules/README.md"), b"dep");
    disk.put(&at("node_modules/pkg/Index.md"), b"dep");
    disk.put(&at("Work/node_modules/Nested.md"), b"dep");

    let ids = names(heads(disk.run(notes_list(root()))).unwrap());
    assert_eq!(ids, vec!["Inbox.md", "Work/Roadmap.md", "Work/Sub/Deep.md"]);

    let mut all: Vec<String> = full(disk.run(notes_read_all(root())))
        .unwrap()
        .into_iter()
        .map(|n| n.name)
        .collect();
    all.sort();
    assert_eq!(all, vec!["Inbox.md", "Work/Roadmap.md", "Work/Sub/Deep.md"]);

    let tree = folders(&mut disk);
    assert!(
        !tree.iter().any(|f| f.contains("node_modules")),
        "node_modules leaked into the folder tree: {tree:?}"
    );
}

#[test]
fn lists_md_files_in_a_named_subdir_and_excludes_it_from_the_main_walk() {
    let mut disk = Disk::new();
    write(&mut disk, ".trash/A.md", "aaa").unwrap();
    write(&mut disk, ".trash/B.md", "bbb").unwrap();
    disk.put(&at(".trash/note.txt"), b"x");
    write(&mut disk, "Root.md", "r").unwrap();

    let ids = names(heads(disk.run(notes_list_dir(root(), ".trash".into()))).unwrap());
    assert_eq!(ids, vec![".trash/A.md", ".trash/B.md"]);

    let top: Vec<String> = heads(disk.run(notes_list_dir(root(), "".into())))
        .unwrap()
        .into_iter()
        .map(|n| n.name)
        .collect();
    assert_eq!(top, vec!["Root.md"]);

    let walked: Vec<String> = heads(disk.run(notes_list(root())))
        .unwrap()
        .into_iter()
        .map(|n| n.name)
        .collect();
    assert_eq!(walked, vec!["Root.md"]);
    assert!(folders(&mut disk).is_empty());
    assert!(heads(disk.run(notes_list_dir(root(), "Nope".into()))).unwrap().is_empty());
    assert!(disk.run(notes_list_dir(root(), "../..".into())).is_err());
}

#[test]
fn remove_dir_all_recursively_clears_a_folder_and_noops_when_absent() {
    let mut disk = Disk::new();
    write(&mut disk, ".trash/A.md", "a").unwrap();
    write(&mut disk, ".trash/Sub/B.md", "b").unwrap();
    disk.put(&at(".trash/note.txt"), b"x");
    assert!(disk.has(&at(".trash")));

    unit(disk.run(notes_remove_dir_all(root(), ".trash".into()))).unwrap();
    assert!(!disk.has(&at(".trash")));
    assert!(disk.run(notes_remove_dir_all(root(), ".trash".into())).is_ok());
    assert!(disk.run(notes_remove_dir_all(root(), "../escape".into())).is_err());
}

#[test]
fn moves_a_note_across_folders() {
    let mut disk = Disk::new();
    write(&mut disk, "Inbox/Note.md", "keep").unwrap();

    rename(&mut disk, "Inbox/Note.md", "Archive/Note.md").unwrap();

    assert!(stamp(&mut disk, "Inbox/Note.md").unwrap().is_none());
    let moved = read(&mut disk, "Archive/Note.md").unwrap().unwrap();
    assert_eq!(moved.content, "keep");
}

#[test]
fn rejects_path_traversal_on_every_argument() {
    let mut disk = Disk::new();
    write(&mut disk, "Note.md", "safe").unwrap();

    assert!(write(&mut disk, "../evil.md", "x").is_err());
    assert!(write(&mut disk, "Work/../../evil.md", "x").is_err());
    assert!(read(&mut disk, "../../etc/passwd").is_err());
    assert!(stamp(&mut disk, "/etc/passwd").is_err());

    assert!(rename(&mut disk, "Note.md", "../escaped.md").is_err());
    assert!(rename(&mut disk, "../escaped.md", "Note.md").is_err());
    assert!(stamp(&mut disk, "Note.md").unwrap().is_some());
    assert!(!disk.has("/home/evil.md"));
    assert!(!disk.has("/home/escaped.md"));
}

#[test]
fn creates_and_lists_an_empty_folder_kept_by_its_marker() {
    let mut disk = Disk::new();
    unit(disk.run(notes_create_folder(root(), "Projects".into()))).unwrap();

    assert!(disk.is_file(&child(&at("Projects"), FOLDER_MARKER)));
    assert_eq!(folders(&mut disk), vec!["Projects"]);
    assert!(heads(disk.run(notes_list(root()))).unwrap().is_empty());

    unit(disk.run(notes_remove_dir(root(), "Projects".into()))).unwrap();
    assert!(!disk.has(&at("Projects")));
}

#[test]
fn removing_the_last_note_prunes_an_implicit_folder_but_keeps_a_marked_one() {
    let mut disk = Disk::new();
    write(&mut disk, "Work/Note.md", "x").unwrap();
    unit(disk.run(notes_create_folder(root(), "Keep".into()))).unwrap();
    write(&mut disk, "Keep/Temp.md", "y").unwrap();

    unit(disk.run(notes_remove(root(), "Work/Note.md".into()))).unwrap();
    assert!(!disk.has(&at("Work")));

    unit(disk.run(notes_remove(root(), "Keep/Temp.md".into()))).unwrap();
    assert!(disk.is_dir(&at("Keep")));
    assert!(disk.is_file(&child(&at("Keep"), FOLDER_MARKER)));
    assert_eq!(folders(&mut disk), vec!["Keep"]);
}

#[test]
fn moving_the_last_note_out_prunes_nested_empty_ancestors() {
    let mut disk = Disk::new();
    write(&mut disk, "A/B/C/Note.md", "x").unwrap();

    rename(&mut disk, "A/B/C/Note.md", "Note.md").unwrap();

    assert!(!disk.has(&at("A")));
    assert!(disk.is_file(&at("Note.md")));
}

#[test]
fn moves_a_folder_subtree_and_prunes_the_old_parent() {
    let mut disk = Disk::new();
    write(&mut disk, "Work/A.md", "a").unwrap();
    write(&mut disk, "Work/Sub/B.md", "b").unwrap();

    unit(disk.run(notes_move_dir(root(), "Work".into(), "Archive/Work".into()))).unwrap();

    assert!(!disk.has(&at("Work")));
    assert!(disk.is_file(&at("Archive/Work/A.md")));
    assert!(disk.is_file(&at("Archive/Work/Sub/B.md")));
}

#[test]
fn move_dir_rejects_an_existing_destination() {
    let mut disk = Disk::new();
    write(&mut disk, "Work/A.md", "a").unwrap();
    write(&mut disk, "Archive/B.md", "b").unwrap();

    let end = disk.run(notes_move_dir(root(), "Work".into(), "Archive".into()));
    assert_eq!(end.err(), Some("\"Archive\" already exists".to_string()));
    assert!(disk.is_file(&at("Work/A.md")));
}

#[test]
fn attachment_round_trips_and_rejects_traversal() {
    let mut disk = Disk::new();
    let bytes = vec![0u8, 1, 2, 254, 255];

    unit(disk.run(attachment_write(root(), "Attachments/pic.png".into(), bytes.clone()))).unwrap();
    assert!(disk.is_file(&at("Attachments/pic.png")));
    assert_eq!(fetch(&mut disk, "Attachments/pic.png").unwrap(), Some(bytes));

    assert_eq!(fetch(&mut disk, "Attachments/missing.png").unwrap(), None);

    assert!(disk.run(attachment_write(root(), "../evil.png".into(), vec![1])).is_err());
    assert!(fetch(&mut disk, "../../etc/passwd").is_err());
}

#[test]
fn attachment_list_and_remove() {
    let mut disk = Disk::new();
    assert!(attachments(&mut disk).is_empty());

    unit(disk.run(attachment_write(root(), "Attachments/cat.png".into(), vec![1, 2, 3]))).unwrap();
    unit(disk.run(attachment_write(root(), "Attachments/dog.gif".into(), vec![9]))).unwrap();
    disk.put(&at("Attachments/.keep"), b"");

    let mut listed: Vec<String> = attachments(&mut disk).into_iter().map(|a| a.name).collect();
    listed.sort();
    assert_eq!(listed, vec!["cat.png", "dog.gif"]);
    let cat = attachments(&mut disk).into_iter().find(|a| a.name == "cat.png").unwrap();
    assert_eq!(cat.size as f64, 3.0);

    unit(disk.run(attachment_remove(root(), "Attachments/cat.png".into()))).unwrap();
    let listed: Vec<String> = attachments(&mut disk).into_iter().map(|a| a.name).collect();
    assert_eq!(listed, vec!["dog.gif"]);
    assert!(disk.run(attachment_remove(root(), "Attachments/gone.png".into())).is_ok());
    assert!(disk.run(attachment_remove(root(), "../escape.png".into())).is_err());
}

#[test]
fn attachments_folder_is_hidden_from_notes_and_folder_listings() {
    let mut disk = Disk::new();
    write(&mut disk, "Note.md", "x").unwrap();
    unit(disk.run(attachment_write(root(), "Attachments/pic.png".into(), vec![1, 2, 3]))).unwrap();
    disk.put(&at("Attachments/Stray.md"), b"nope");

    let notes: Vec<String> = heads(disk.run(notes_list(root())))
        .unwrap()
        .into_iter()
        .map(|n| n.name)
        .collect();
    assert_eq!(notes, vec!["Note.md"]);
    assert!(folders(&mut disk).is_empty());
}

#[test]
fn write_into_a_not_yet_existent_nested_dir_succeeds_via_ancestor_confinement() {
    let mut disk = Disk::new();
    let path = resolve_within(ROOT, "A/B/C/Deep.md").unwrap();
    assert!(path.starts_with(&FsPath::parse(ROOT.as_bytes())));
    assert!(!disk.has(&text(&path)));
    write(&mut disk, "A/B/C/Deep.md", "ok").unwrap();
    assert!(disk.is_file(&text(&path)));
}

#[test]
fn reveal_rejects_traversal_and_missing_paths() {
    let mut disk = Disk::new();
    write(&mut disk, "Note.md", "x").unwrap();

    assert!(disk.run(reveal_path(root(), "../../Applications".into())).is_err());
    let end = disk.run(reveal_path(root(), "Nope.md".into()));
    assert_eq!(end.err(), Some("\"Nope.md\" no longer exists".to_string()));
    assert!(!disk.log.iter().any(|line| line.starts_with("reveal")));
}

#[test]
fn rejects_paths_that_escape_through_an_in_root_symlink() {
    let mut disk = Disk::new();
    disk.put("/outside/secret.md", b"secret");
    disk.nodes.insert(at("escape"), Node::Link("/outside".to_string()));

    assert!(read(&mut disk, "escape/secret.md").is_err());
    assert!(disk.run(reveal_path(root(), "escape/secret.md".into())).is_err());
    assert!(write(&mut disk, "escape/evil.md", "x").is_err());
    assert!(disk.run(attachment_write(root(), "escape/evil.png".into(), vec![1])).is_err());
    assert!(!disk.has("/outside/evil.md"));
    assert!(!disk.has("/outside/evil.png"));
}

#[test]
fn rename_refuses_to_clobber_a_different_note() {
    let mut disk = Disk::new();
    write(&mut disk, "A.md", "aaa").unwrap();
    write(&mut disk, "B.md", "bbb").unwrap();

    let end = rename(&mut disk, "A.md", "B.md");
    assert_eq!(end.err(), Some("\"B.md\" already exists".to_string()));
    assert_eq!(read(&mut disk, "A.md").unwrap().unwrap().content, "aaa");
    assert_eq!(read(&mut disk, "B.md").unwrap().unwrap().content, "bbb");
}

#[test]
fn remove_dir_refuses_a_non_empty_folder_and_keeps_its_marker() {
    let mut disk = Disk::new();
    unit(disk.run(notes_create_folder(root(), "Keep".into()))).unwrap();
    write(&mut disk, "Keep/Note.md", "x").unwrap();

    let end = disk.run(notes_remove_dir(root(), "Keep".into()));
    assert_eq!(end.err(), Some("\"Keep\" is not empty".to_string()));
    assert!(disk.is_file(&child(&at("Keep"), FOLDER_MARKER)));
    assert!(disk.is_file(&at("Keep/Note.md")));
    assert!(disk.run(notes_remove_dir(root(), "Nope".into())).is_ok());
}

#[test]
fn reading_a_non_utf8_note_errors_instead_of_corrupting_it() {
    let mut disk = Disk::new();
    disk.put(&at("Latin1.md"), &[0x68, 0x69, 0xff]);
    let end = read(&mut disk, "Latin1.md");
    assert_eq!(end.err(), Some("\"Latin1.md\" is not valid UTF-8 text".to_string()));
}

#[test]
fn watch_rel_path_filters_note_relevant_paths() {
    let mut disk = Disk::new();
    disk.put(&at("Work/Sub/Deep.md"), b"x");
    disk.put(&at("readme.txt"), b"x");

    let base = FsPath::parse(ROOT.as_bytes());
    let look = |path: &str| {
        let on_disk = match disk.nodes.get(path) {
            Some(Node::Dir) => Some(FileKind::Dir),
            Some(Node::File { .. }) => Some(FileKind::File),
            Some(Node::Link(_)) => Some(FileKind::Symlink),
            None => None,
        };
        watch_rel_path(&base, &FsPath::parse(path.as_bytes()), on_disk)
    };
    let rel = |name: &str| look(&at(name));

    assert_eq!(rel("Work/Sub/Deep.md"), Some("Work/Sub/Deep.md".into()));
    assert_eq!(rel("Note.md"), Some("Note.md".into()));
    assert_eq!(rel(".hidden.md"), Some(".hidden.md".into()));
    assert_eq!(rel("Work/Sub"), Some("Work/Sub".into()));
    assert_eq!(rel("Gone"), Some("Gone".into()));
    assert_eq!(rel(".DS_Store"), None);
    assert_eq!(rel(".gravity-notes.json"), None);
    assert_eq!(rel(".trash/Old.md"), None);
    assert_eq!(rel("Attachments/pic.png"), None);
    assert_eq!(rel("node_modules/x.md"), None);
    assert_eq!(rel("Work/node_modules/y.md"), None);
    assert_eq!(rel("Note.md.gn-tmp"), None);
    assert_eq!(rel("Note.md.rename-tmp"), None);
    assert_eq!(rel("readme.txt"), None);
    assert_eq!(look(ROOT), None);
    assert_eq!(look("/elsewhere/Note.md"), None);
}

#[test]
fn every_operation_of_a_save_lies_in_the_folder() {
    let mut disk = Disk::new();
    write(&mut disk, "Work/Note.md", "hello").unwrap();
    assert_eq!(
        disk.log,
        vec![
            "canonicalize /home/notes",
            "canonicalize /home/notes/Work/Note.md",
            "readlink /home/notes/Work/Note.md",
            "canonicalize /home/notes/Work",
            "readlink /home/notes/Work",
            "canonicalize /home/notes",
            "mkdirs /home/notes/Work",
            "write /home/notes/Work/Note.md.gn-tmp",
            "rename /home/notes/Work/Note.md.gn-tmp /home/notes/Work/Note.md",
            "metadata /home/notes/Work/Note.md",
        ]
    );
}

#[test]
fn a_refused_path_is_only_looked_up() {
    let mut disk = Disk::new();
    assert_eq!(
        write(&mut disk, "../evil.md", "x").err(),
        Some("invalid note path: \"../evil.md\"".to_string())
    );
    assert!(disk.log.is_empty());

    disk.put("/outside/secret.md", b"secret");
    disk.nodes.insert(at("escape"), Node::Link("/outside".to_string()));
    assert_eq!(
        read(&mut disk, "escape/secret.md").err(),
        Some("invalid note path: \"/home/notes/escape/secret.md\"".to_string())
    );
    assert!(disk.log.iter().all(|line| line.starts_with("canonicalize")));
}

#[test]
fn a_missing_folder_is_reported_in_the_words_of_the_system() {
    let mut disk = Disk::new();
    let end = disk.run(notes_exists("/nowhere".into(), "A.md".into()));
    assert_eq!(end.err(), Some("No such file or directory (os error 2)".to_string()));
    let end = disk.run(notes_list("/nowhere".into()));
    assert_eq!(end.err(), Some("No such file or directory (os error 2)".to_string()));
}

#[test]
fn a_path_through_a_file_is_reported() {
    let mut disk = Disk::new();
    write(&mut disk, "A.md", "x").unwrap();
    assert_eq!(
        read(&mut disk, "A.md/B.md").err(),
        Some("Not a directory (os error 20)".to_string())
    );
}

#[test]
fn a_failed_publication_keeps_the_note_and_drops_the_staging_file() {
    let mut disk = Disk::new();
    write(&mut disk, "A.md", "old").unwrap();
    disk.broken.push("rename /home/notes/A.md.gn-tmp /home/notes/A.md".to_string());
    assert_eq!(
        write(&mut disk, "A.md", "new").err(),
        Some("Input/output error (os error 5)".to_string())
    );
    assert!(!disk.has(&at("A.md.gn-tmp")));
    assert_eq!(read(&mut disk, "A.md").unwrap().unwrap().content, "old");
}

#[test]
fn a_save_stopped_at_any_time_leaves_the_old_or_the_new_note() {
    for stop in 0..9 {
        let mut disk = Disk::new();
        write(&mut disk, "A.md", "old").unwrap();
        let mut job = notes_write(root(), "A.md".into(), "new".into());
        for _ in 0..stop {
            if let Some(request) = job.request() {
                let reply = disk.perform(&request);
                job = job.resume(reply);
            }
        }
        let content = read(&mut disk, "A.md").unwrap().unwrap().content;
        assert!(content == "old" || content == "new");
        assert_eq!(content == "new", stop >= 5);
    }
}

#[test]
fn a_rename_across_devices_copies_and_removes() {
    let mut disk = Disk::new();
    write(&mut disk, "A.md", "text").unwrap();
    disk.broken.push("rename /home/notes/A.md /home/notes/B.md".to_string());
    let Ok(Outcome::Stamp(ms)) = rename(&mut disk, "A.md", "B.md") else { panic!() };
    assert_eq!(ms, disk.clock);
    assert!(!disk.has(&at("A.md")));
    assert_eq!(read(&mut disk, "B.md").unwrap().unwrap().content, "text");

    // Where the copy fails too, the rename's own fault is what is reported.
    disk.broken.push("rename /home/notes/B.md /home/notes/C.md".to_string());
    disk.broken.push("copy /home/notes/B.md /home/notes/C.md".to_string());
    assert_eq!(
        rename(&mut disk, "B.md", "C.md").err(),
        Some("Input/output error (os error 5)".to_string())
    );
    assert_eq!(read(&mut disk, "B.md").unwrap().unwrap().content, "text");
}

#[test]
fn a_rename_onto_the_same_file_goes_ahead() {
    let mut disk = Disk::new();
    write(&mut disk, "A.md", "text").unwrap();
    disk.nodes.insert(at("Alias.md"), Node::Link(at("A.md")));
    assert!(rename(&mut disk, "A.md", "Alias.md").is_ok());
    assert_eq!(read(&mut disk, "Alias.md").unwrap().unwrap().content, "text");
}

#[test]
fn a_folder_with_a_staging_file_is_not_pruned() {
    let mut disk = Disk::new();
    write(&mut disk, "Work/A.md", "x").unwrap();
    disk.put(&at("Work/B.md.gn-tmp"), b"half");
    unit(disk.run(notes_remove(root(), "Work/A.md".into()))).unwrap();
    assert!(disk.is_dir(&at("Work")));
    assert!(disk.is_file(&at("Work/B.md.gn-tmp")));
}

#[test]
fn removing_a_missing_note_is_reported() {
    let mut disk = Disk::new();
    assert_eq!(
        unit(disk.run(notes_remove(root(), "A.md".into()))).err(),
        Some("No such file or directory (os error 2)".to_string())
    );
}

#[test]
fn a_walk_reads_heads_and_leaves_evicted_notes_and_links_alone() {
    let mut disk = Disk::new();
    let long = "x".repeat(800);
    write(&mut disk, "Long.md", &long).unwrap();
    disk.put(&at("Bad.md"), &[0x61, 0xff, 0x62]);
    disk.nodes.insert(
        at("Cloud.md"),
        Node::File { bytes: b"away".to_vec(), modified: 7, flags: 0x4000_0000 },
    );
    disk.nodes.insert(at("Link.md"), Node::Link(at("Long.md")));

    let mut list = heads(disk.run(notes_list(root()))).unwrap();
    list.sort_by(|a, b| a.name.cmp(&b.name));
    let ids: Vec<&str> = list.iter().map(|n| n.name.as_str()).collect();
    assert_eq!(ids, vec!["Bad.md", "Cloud.md", "Long.md"]);
    assert_eq!(list[0].head, "a\u{fffd}b");
    assert_eq!(list[1].head, "");
    assert_eq!(list[1].modified_ms, 7);
    assert_eq!(list[2].head, "x".repeat(500));
    assert!(!disk.log.iter().any(|line| line.starts_with("head /home/notes/Cloud.md")));

    let all = full(disk.run(notes_read_all(root()))).unwrap();
    let whole = all.iter().find(|n| n.name == "Long.md").unwrap();
    assert_eq!(whole.content, long);
}

#[test]
fn ids_never_hold_a_backslash() {
    let mut disk = Disk::new();
    disk.put(&at("a\\b/c\\d.md"), b"x");
    assert_eq!(names(heads(disk.run(notes_list(root()))).unwrap()), vec!["a/b/c/d.md"]);
    assert_eq!(folders(&mut disk), vec!["a/b"]);
}

#[test]
fn reveal_reports_what_the_file_manager_did() {
    let mut disk = Disk::new();
    write(&mut disk, "Note.md", "x").unwrap();
    write(&mut disk, "Stuck.md", "x").unwrap();
    assert!(unit(disk.run(reveal_path(root(), "Note.md".into()))).is_ok());
    assert_eq!(
        disk.run(reveal_path(root(), "Stuck.md".into())).err(),
        Some("Finder could not reveal \"Stuck.md\"".to_string())
    );
}

#[test]
fn exists_and_stat_follow_the_disk() {
    let mut disk = Disk::new();
    let ms = write(&mut disk, "A.md", "x").unwrap();
    assert!(matches!(
        disk.run(notes_exists(root(), "A.md".into())),
        Ok(Outcome::Flag(true))
    ));
    assert!(matches!(
        disk.run(notes_exists(root(), "B.md".into())),
        Ok(Outcome::Flag(false))
    ));
    assert_eq!(stamp(&mut disk, "A.md").unwrap(), Some(ms));
    assert_eq!(stamp(&mut disk, "B.md").unwrap(), None);
    assert!(read(&mut disk, "B.md").unwrap().is_none());
}

#[test]
fn a_folder_is_listed_under_its_text_without_trailing_slashes() {
    let mut disk = Disk::new();
    write(&mut disk, "Work/A.md", "x").unwrap();
    let list = heads(disk.run(notes_list_dir(root(), "Work//".into()))).unwrap();
    assert_eq!(names(list), vec!["Work/A.md"]);
}

#[test]
fn an_answer_to_another_operation_is_no_answer() {
    let request: OsRequest = FsRequest::Exists(FsPath::parse(b"/a"));
    assert!(is_answer(&request, &OsReply::Exists(true)));
    assert!(!is_answer(&request, &OsReply::Done(Ok(()))));
}

#[test]
fn a_change_of_every_listed_note_is_told() {
    let mut disk = Disk::new();
    for name in ["A.md", ".dot.md", "Work/B.MD", "Work/.trash/C.md", "Work/Attachments/D.md"] {
        disk.put(&at(name), b"x");
    }
    for name in [".trash/E.md", "Attachments/F.md", "Node_Modules/G.md", "H.txt", "I.md.gn-tmp"] {
        disk.put(&at(name), b"x");
    }
    let listed = names(heads(disk.run(notes_list(root()))).unwrap());
    assert_eq!(listed, vec![".dot.md", "A.md", "Work/Attachments/D.md", "Work/B.MD"]);
    let base = FsPath::parse(ROOT.as_bytes());
    let files: Vec<String> = disk.nodes.keys().filter(|p| disk.is_file(p)).cloned().collect();
    let told: Vec<String> = files
        .iter()
        .filter_map(|p| watch_rel_path(&base, &FsPath::parse(p.as_bytes()), Some(FileKind::File)))
        .collect();
    assert_eq!(told, listed);
}

#[test]
fn a_note_saved_as_it_was_read_keeps_its_bytes() {
    let mut disk = Disk::new();
    let bytes = "caf\u{e9} \u{1f600}\r\n".as_bytes().to_vec();
    disk.put(&at("A.md"), &bytes);
    let content = read(&mut disk, "A.md").unwrap().unwrap().content;
    write(&mut disk, "A.md", &content).unwrap();
    assert_eq!(disk.bytes(&at("A.md")).ok(), Some(bytes));
}

fn link(disk: &mut Disk, name: &str, to: &str) {
    disk.nodes.insert(at(name), Node::Link(to.to_string()));
}

fn only_looked_up(disk: &Disk) -> bool {
    disk.log.iter().all(|line| line.starts_with("canonicalize") || line.starts_with("readlink"))
}

#[test]
fn a_dangling_link_out_of_the_folder_lets_nothing_through() {
    for to in ["/outside/gone", "../gone", "/home/notes/gone/../../../outside/gone", "/nowhere/x/y"] {
        let mut disk = Disk::new();
        disk.mkdirs("/outside");
        link(&mut disk, "esc", to);
        for name in ["esc", "esc/file.md", "esc/deep/file.md"] {
            let refusal = format!("invalid note path: \"/home/notes/{name}\"");
            assert_eq!(write(&mut disk, name, "x").err(), Some(refusal.clone()), "{to} {name}");
            assert_eq!(read(&mut disk, name).err(), Some(refusal), "{to} {name}");
        }
        assert!(only_looked_up(&disk));
    }
}

#[test]
fn a_dangling_link_is_followed_through_others() {
    let mut disk = Disk::new();
    disk.mkdirs("/outside");
    link(&mut disk, "one", "two");
    link(&mut disk, "two", "/outside/gone");
    assert!(write(&mut disk, "one/file.md", "x").is_err());
    // A link on the place that another names counts too.
    disk.mkdirs(&at("in"));
    link(&mut disk, "in/esc", "/outside");
    link(&mut disk, "three", "in/esc/gone");
    assert!(write(&mut disk, "three/file.md", "x").is_err());
    assert!(only_looked_up(&disk));
}

#[test]
fn a_dangling_link_that_stays_inside_is_no_hindrance() {
    for to in ["/home/notes/later.md", "later.md", "./later.md", "Work/later.md"] {
        let mut disk = Disk::new();
        link(&mut disk, "alias.md", to);
        write(&mut disk, "alias.md", "x").unwrap();
        assert!(disk.is_file(&at("alias.md")));
    }
}

#[test]
fn links_that_never_end_are_refused() {
    let mut at = confine_to_root("/n", "a").unwrap();
    let mut followed = 0;
    loop {
        let request = at.request();
        let reply = match &request {
            FsRequest::Canonicalize(p) if text(p) == "/n" => {
                OsReply::Canonical(Ok(FsPath::parse(b"/n")))
            }
            FsRequest::Canonicalize(_) => OsReply::Canonical(Err(missing())),
            _ => {
                followed += 1;
                OsReply::Link(Ok(Some(FsPath::parse(b"/n/a"))))
            }
        };
        assert!(is_answer(&request, &reply));
        match at.step(reply) {
            ConfineStep::More(next) => at = next,
            ConfineStep::Refused(message) => {
                assert_eq!(message, "invalid note path: \"/n/a\"");
                break;
            }
            ConfineStep::Inside => panic!(),
        }
    }
    assert_eq!(followed, LINK_LIMIT + 1);
}

#[test]
fn a_link_that_cannot_be_looked_at_is_reported() {
    let at = confine_to_root("/n", "a").unwrap();
    let ConfineStep::More(at) = at.step(OsReply::Canonical(Ok(FsPath::parse(b"/n")))) else {
        panic!()
    };
    let ConfineStep::More(at) = at.step(OsReply::Canonical(Err(missing()))) else { panic!() };
    let ConfineStep::Refused(message) = at.step(OsReply::Link(Err(fault(false, "denied")))) else {
        panic!()
    };
    assert_eq!(message, "denied");
}

#[test]
fn what_is_saved_needs_a_name() {
    for name in ["", ".", "./", "//."] {
        let mut disk = Disk::new();
        assert_eq!(
            write(&mut disk, name, "x").err(),
            Some(format!("invalid note path: \"{name}\""))
        );
        assert!(disk.run(attachment_write(root(), name.into(), vec![1])).is_err());
        assert!(disk.log.is_empty());
    }
}

#[test]
fn the_picked_folder_is_in_the_way_of_a_rename_or_a_move() {
    for to in ["", ".", "./"] {
        let mut disk = Disk::new();
        write(&mut disk, "A.md", "x").unwrap();
        write(&mut disk, "Work/B.md", "y").unwrap();
        disk.log.clear();
        let taken = Some(format!("\"{to}\" already exists"));
        assert_eq!(rename(&mut disk, "A.md", to).err(), taken);
        let end = disk.run(notes_move_dir(root(), "Work".into(), to.into()));
        assert_eq!(end.err(), taken);
        let end = disk.run(notes_move_dir(root(), "".into(), to.into()));
        assert_eq!(end.err(), taken);
        assert!(disk.is_file(&at("A.md")));
        assert!(disk.is_file(&at("Work/B.md")));
        assert!(!disk.log.iter().any(|line| line.starts_with("mkdirs") || line.starts_with("rename")));
    }
}

#[test]
fn the_picked_folder_is_renamed_to_itself() {
    let mut disk = Disk::new();
    write(&mut disk, "A.md", "x").unwrap();
    disk.log.clear();
    let Ok(Outcome::Stamp(ms)) = rename(&mut disk, "", ".") else { panic!() };
    assert_eq!(ms, FOLDER_TIME);
    assert!(disk.is_file(&at("A.md")));
    assert_eq!(disk.log.last(), Some(&"metadata /home/notes".to_string()));
    assert!(!disk.log.iter().any(|line| line.starts_with("mkdirs")));
}

#[test]
fn a_failed_removal_of_a_folder_leaves_it_whole() {
    let mut disk = Disk::new();
    write(&mut disk, ".trash/A.md", "a").unwrap();
    write(&mut disk, ".trash/B.md", "b").unwrap();
    disk.broken.push("rename /home/notes/.trash /home/notes/.gn-removed-0".to_string());
    let end = disk.run(notes_remove_dir_all(root(), ".trash".into()));
    assert_eq!(end.err(), Some("Input/output error (os error 5)".to_string()));
    assert!(disk.is_file(&at(".trash/A.md")));
    assert!(disk.is_file(&at(".trash/B.md")));
}

#[test]
fn what_a_removal_leaves_behind_is_out_of_the_way() {
    let mut disk = Disk::new();
    write(&mut disk, ".trash/A.md", "a").unwrap();
    write(&mut disk, ".trash/B.md", "b").unwrap();
    disk.broken.push("rmtree /home/notes/.gn-removed-0".to_string());
    assert!(disk.run(notes_remove_dir_all(root(), ".trash".into())).is_ok());
    assert!(!disk.has(&at(".trash")));
    assert!(disk.has(&at(".gn-removed-0")));
    assert!(heads(disk.run(notes_list(root()))).unwrap().is_empty());
    assert!(folders(&mut disk).is_empty());
    let base = FsPath::parse(ROOT.as_bytes());
    for name in [".gn-removed-0", ".gn-removed-0/B.md", ".gn-removed-0/Sub"] {
        let path = FsPath::parse(at(name).as_bytes());
        assert_eq!(watch_rel_path(&base, &path, None), None);
    }

    write(&mut disk, ".trash/C.md", "c").unwrap();
    assert!(disk.run(notes_remove_dir_all(root(), ".trash".into())).is_ok());
    assert!(!disk.has(&at(".trash")));
    assert!(!disk.has(&at(".gn-removed-1")));
}

#[test]
fn a_removal_of_a_folder_takes_only_what_is_named() {
    let mut disk = Disk::new();
    write(&mut disk, ".trash/A.md", "a").unwrap();
    write(&mut disk, ".gn-removed-0/Mine.md", "mine").unwrap();
    disk.put(&at(".gn-removed-1"), b"a file");
    link(&mut disk, ".gn-removed-2", "/home/notes/nowhere");
    disk.log.clear();
    assert!(disk.run(notes_remove_dir_all(root(), ".trash".into())).is_ok());
    assert!(!disk.has(&at(".trash")));
    assert_eq!(disk.bytes(&at(".gn-removed-0/Mine.md")).ok(), Some(b"mine".to_vec()));
    assert_eq!(disk.bytes(&at(".gn-removed-1")).ok(), Some(b"a file".to_vec()));
    assert!(disk.has(&at(".gn-removed-2")));
    assert!(!disk.has(&at(".gn-removed-3")));
    let tail: Vec<&str> = disk.log.iter().rev().take(6).rev().map(|line| line.as_str()).collect();
    assert_eq!(
        tail,
        vec![
            "readlink /home/notes/.gn-removed-0",
            "readlink /home/notes/.gn-removed-1",
            "readlink /home/notes/.gn-removed-2",
            "readlink /home/notes/.gn-removed-3",
            "rename /home/notes/.trash /home/notes/.gn-removed-3",
            "rmtree /home/notes/.gn-removed-3",
        ]
    );

    // A folder of such a name can be removed too.
    assert!(disk.run(notes_remove_dir_all(root(), ".gn-removed-0".into())).is_ok());
    assert!(!disk.has(&at(".gn-removed-0")));
    assert!(disk.is_file(&at(".gn-removed-1")));
}

#[test]
fn a_tree_removal_takes_a_link_but_not_what_it_leads_to() {
    let mut disk = Disk::new();
    write(&mut disk, "Work/A.md", "a").unwrap();
    link(&mut disk, "Alias", "/home/notes/Work");
    assert!(disk.run(notes_remove_dir_all(root(), "Alias".into())).is_ok());
    assert!(!disk.has(&at("Alias")));
    assert!(disk.is_file(&at("Work/A.md")));
    // A file is no folder.
    let end = disk.run(notes_remove_dir_all(root(), "Work/A.md".into()));
    assert_eq!(end.err(), Some("Not a directory (os error 20)".to_string()));
    assert!(disk.is_file(&at("Work/A.md")));
}

#[test]
fn a_rename_onto_the_same_file_is_never_a_copy() {
    let mut disk = Disk::new();
    write(&mut disk, "A.md", "text").unwrap();
    link(&mut disk, "Alias.md", "/home/notes/A.md");
    disk.broken.push("rename /home/notes/A.md /home/notes/Alias.md".to_string());
    assert_eq!(
        rename(&mut disk, "A.md", "Alias.md").err(),
        Some("Input/output error (os error 5)".to_string())
    );
    assert_eq!(read(&mut disk, "A.md").unwrap().unwrap().content, "text");
    assert!(!disk.log.iter().any(|line| line.starts_with("copy")));
}

#[test]
fn a_written_note_is_read_with_the_time_that_the_write_gave() {
    let mut disk = Disk::new();
    let ms = write(&mut disk, "Work/Sub/Note.md", "hello").unwrap();
    let note = read(&mut disk, "Work/Sub/Note.md").unwrap().unwrap();
    assert_eq!(note.name, "Work/Sub/Note.md");
    assert_eq!(note.modified_ms, ms);
    assert_eq!(note.content, "hello");
}

#[test]
fn a_save_leaves_no_staging_file() {
    let mut disk = Disk::new();
    write(&mut disk, "A.md", "old").unwrap();
    // One that an earlier save has left is used up.
    disk.put(&at("A.md.gn-tmp"), b"half");
    write(&mut disk, "A.md", "new").unwrap();
    unit(disk.run(notes_create_folder(root(), "Work".into()))).unwrap();
    assert!(!disk.nodes.keys().any(|path| path.ends_with(".gn-tmp")));
    assert_eq!(disk.bytes(&at("A.md")).ok(), Some(b"new".to_vec()));
}

#[test]
fn a_note_saved_over_a_link_reads_back() {
    let mut disk = Disk::new();
    write(&mut disk, "Real.md", "real").unwrap();
    link(&mut disk, "Alias.md", "/home/notes/Real.md");
    let ms = write(&mut disk, "Alias.md", "alias").unwrap();
    let note = read(&mut disk, "Alias.md").unwrap().unwrap();
    assert_eq!(note.content, "alias");
    assert_eq!(note.modified_ms, ms);
    assert!(disk.is_file(&at("Alias.md")));
    assert_eq!(read(&mut disk, "Real.md").unwrap().unwrap().content, "real");

    link(&mut disk, "pic.png", "/home/notes/Real.md");
    unit(disk.run(attachment_write(root(), "pic.png".into(), vec![9, 8]))).unwrap();
    assert_eq!(fetch(&mut disk, "pic.png").unwrap(), Some(vec![9, 8]));
    assert_eq!(read(&mut disk, "Real.md").unwrap().unwrap().content, "real");
}

#[test]
fn a_folder_is_listed_before_its_subfolders() {
    let mut disk = Disk::new();
    write(&mut disk, "B/C/D/Note.md", "x").unwrap();
    write(&mut disk, "B/A/Note.md", "x").unwrap();
    write(&mut disk, "A/Note.md", "x").unwrap();
    assert_eq!(folders(&mut disk), vec!["A", "B", "B/A", "B/C", "B/C/D"]);
}

#[test]
fn a_staging_file_is_never_told() {
    let base = FsPath::parse(ROOT.as_bytes());
    for name in ["Note.md", "Work/Note.md", ".gnkeep", "x.md.gn-tmp", "Attachments/pic.png"] {
        let path = tmp_sibling(&FsPath::parse(at(name).as_bytes()));
        assert_eq!(text(&path), at(&format!("{name}.gn-tmp")));
        for on_disk in [None, Some(FileKind::File), Some(FileKind::Dir)] {
            assert_eq!(watch_rel_path(&base, &path, on_disk), None);
        }
    }
}

#[test]
fn listing_and_reading_all_agree() {
    let mut disk = Disk::new();
    write(&mut disk, "A.md", "short").unwrap();
    write(&mut disk, "Work/B.md", &"y".repeat(900)).unwrap();
    disk.nodes.insert(
        at("Cloud.md"),
        Node::File { bytes: b"away".to_vec(), modified: 7, flags: 0x4000_0000 },
    );
    let list = heads(disk.run(notes_list(root()))).unwrap();
    let all = full(disk.run(notes_read_all(root()))).unwrap();
    assert_eq!(list.len(), 3);
    assert_eq!(all.len(), 3);
    for (head, note) in list.iter().zip(all.iter()) {
        assert_eq!(head.name, note.name);
        assert_eq!(head.modified_ms, note.modified_ms);
        let begin: String = note.content.chars().take(500).collect();
        assert_eq!(head.head, begin);
    }
}

#[test]
fn a_prune_stops_at_the_first_folder_that_holds_something() {
    let mut disk = Disk::new();
    write(&mut disk, "A/B/C/D/Note.md", "x").unwrap();
    disk.put(&at("A/B/keep.txt"), b"x");
    unit(disk.run(notes_remove(root(), "A/B/C/D/Note.md".into()))).unwrap();
    assert!(!disk.has(&at("A/B/C")));
    assert!(disk.is_dir(&at("A/B")));
    // A folder with the sidecar in it is tried, and stays.
    write(&mut disk, "E/Note.md", "x").unwrap();
    disk.put(&at("E/.gravity-notes.json"), b"{}");
    unit(disk.run(notes_remove(root(), "E/Note.md".into()))).unwrap();
    assert!(disk.is_dir(&at("E")));
}
