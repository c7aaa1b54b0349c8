//! POSIX paths as lists of parts.
//!
//! File names are raw bytes, as the operating system has them. A path is what its text says part
//! by part: doubled and trailing slashes and inner `.` segments are gone, and two paths are the
//! same when their parts are.

use vstd::prelude::*;
use vstd::slice::slice_to_vec;

verus! {

/// `/`
pub const SLASH: u8 = 47;

/// `.`
pub const DOT: u8 = 46;

/// One part of a path. `B` is how a name is held: a `Vec<u8>`, or a `Seq<u8>` in contracts.
pub enum Part<B> {
    /// The leading `/`.
    Root,
    /// A leading `.`.
    Here,
    /// A `..`.
    Up,
    /// An ordinary name.
    Name(B),
}

/// A path in contracts.
pub type Path = Seq<Part<Seq<u8>>>;

/// A path, part by part.
pub struct FsPath {
    pub parts: Vec<Part<Vec<u8>>>,
}

impl View for Part<Vec<u8>> {
    type V = Part<Seq<u8>>;

    open spec fn view(&self) -> Part<Seq<u8>> {
        match self {
            Part::Root => Part::Root,
            Part::Here => Part::Here,
            Part::Up => Part::Up,
            Part::Name(name) => Part::Name(name@),
        }
    }
}

impl View for FsPath {
    type V = Path;

    open spec fn view(&self) -> Path {
        Seq::new(self.parts@.len(), |i: int| self.parts@[i]@)
    }
}

/// The texts between the slashes of `s`: one more than there are slashes.
pub open spec fn pieces(s: Seq<u8>) -> Seq<Seq<u8>>
    decreases s.len(),
{
    if s.len() == 0 {
        seq![Seq::empty()]
    } else if s.last() == SLASH {
        pieces(s.drop_last()).push(Seq::empty())
    } else {
        let before = pieces(s.drop_last());
        before.drop_last().push(before.last().push(s.last()))
    }
}

/// The part that a piece stands for, if any. A `.` counts only where the path begins with it.
pub open spec fn part_of(piece: Seq<u8>, leading: bool) -> Option<Part<Seq<u8>>> {
    if piece.len() == 0 {
        None
    } else if piece == seq![DOT] {
        if leading {
            Some(Part::Here)
        } else {
            None
        }
    } else if piece == seq![DOT, DOT] {
        Some(Part::Up)
    } else {
        Some(Part::Name(piece))
    }
}

/// The parts that a list of pieces stands for.
pub open spec fn parts_of(list: Seq<Seq<u8>>) -> Path
    decreases list.len(),
{
    if list.len() == 0 {
        Seq::empty()
    } else {
        match part_of(list.last(), list.len() == 1) {
            Some(part) => parts_of(list.drop_last()).push(part),
            None => parts_of(list.drop_last()),
        }
    }
}

/// The path that the text `s` denotes.
pub open spec fn components(s: Seq<u8>) -> Path {
    if s.len() > 0 && s[0] == SLASH {
        seq![Part::Root] + parts_of(pieces(s))
    } else {
        parts_of(pieces(s))
    }
}

/// The folder that holds `path`; there is none above the root or above the empty path.
pub open spec fn parent_of(path: Path) -> Option<Path> {
    if path.len() == 0 || path.last() == Part::<Seq<u8>>::Root {
        None
    } else {
        Some(path.drop_last())
    }
}

/// The name of the entry that `path` leads to, where its last part is one.
pub open spec fn name_of(path: Path) -> Option<Seq<u8>> {
    if path.len() == 0 {
        None
    } else {
        match path.last() {
            Part::Name(name) => Some(name),
            _ => None,
        }
    }
}

/// Whether two byte strings are the same.
pub fn same_bytes(a: &Vec<u8>, b: &Vec<u8>) -> (res: bool)
    ensures
        res == (a@ == b@),
{
    if a.len() != b.len() {
        return false;
    }
    let mut i: usize = 0;
    while i < a.len()
        invariant
            i <= a@.len() == b@.len(),
            forall|k: int| 0 <= k < i ==> a@[k] == b@[k],
        decreases a@.len() - i,
    {
        if a[i] != b[i] {
            return false;
        }
        i = i + 1;
    }
    assert(a@ =~= b@);
    true
}

impl Clone for Part<Vec<u8>> {
    fn clone(&self) -> (res: Self)
        ensures
            res@ == self@,
    {
        match self {
            Part::Root => Part::Root,
            Part::Here => Part::Here,
            Part::Up => Part::Up,
            Part::Name(name) => Part::Name(slice_to_vec(name.as_slice())),
        }
    }
}

fn same_part(a: &Part<Vec<u8>>, b: &Part<Vec<u8>>) -> (res: bool)
    ensures
        res == (a@ == b@),
{
    match (a, b) {
        (Part::Root, Part::Root) => true,
        (Part::Here, Part::Here) => true,
        (Part::Up, Part::Up) => true,
        (Part::Name(x), Part::Name(y)) => same_bytes(x, y),
        _ => false,
    }
}

impl Clone for FsPath {
    fn clone(&self) -> (res: Self)
        ensures
            res@ == self@,
    {
        let mut parts: Vec<Part<Vec<u8>>> = Vec::new();
        let mut i: usize = 0;
        while i < self.parts.len()
            invariant
                i <= self.parts@.len(),
                parts@.len() == i,
                forall|k: int| 0 <= k < i ==> (#[trigger] parts@[k])@ == self.parts@[k]@,
            decreases self.parts@.len() - i,
        {
            parts.push(self.parts[i].clone());
            i = i + 1;
        }
        let res = FsPath { parts };
        assert(res@ =~= self@);
        res
    }
}

/// `name` put behind `text`, with a slash between them where one is needed.
pub open spec fn pushed_text(text: Seq<u8>, name: Seq<u8>) -> Seq<u8> {
    if text.len() == 0 {
        name
    } else if text.last() == SLASH {
        text + name
    } else {
        text.push(SLASH) + name
    }
}

/// The text of one part.
pub open spec fn part_text(part: Part<Seq<u8>>) -> Seq<u8> {
    match part {
        Part::Root => seq![SLASH],
        Part::Here => seq![DOT],
        Part::Up => seq![DOT, DOT],
        Part::Name(name) => name,
    }
}

/// The text of a path.
pub open spec fn render(path: Path) -> Seq<u8>
    decreases path.len(),
{
    if path.len() == 0 {
        Seq::empty()
    } else {
        pushed_text(render(path.drop_last()), part_text(path.last()))
    }
}

/// Whether these bytes can name an entry of a folder.
pub open spec fn is_file_name(name: Seq<u8>) -> bool {
    &&& name.len() > 0
    &&& !name.contains(SLASH)
    &&& name != seq![DOT]
    &&& name != seq![DOT, DOT]
}

/// Whether a path is the reading of some text: the root or a `.` only in front, and names that
/// can name an entry.
pub open spec fn is_path(path: Path) -> bool {
    forall|i: int|
        0 <= i < path.len() ==> match #[trigger] path[i] {
            Part::Root => i == 0,
            Part::Here => i == 0,
            Part::Up => true,
            Part::Name(name) => is_file_name(name),
        }
}

/// Puts `name` behind `text`, as `pushed_text` says.
pub fn push_text(text: &mut Vec<u8>, name: &Vec<u8>)
    ensures
        final(text)@ == pushed_text(old(text)@, name@),
{
    let ghost before = text@;
    if text.len() > 0 && text[text.len() - 1] != SLASH {
        text.push(SLASH);
    }
    let ghost middle = text@;
    let mut i: usize = 0;
    while i < name.len()
        invariant
            i <= name@.len(),
            text@ == middle + name@.take(i as int),
        decreases name@.len() - i,
    {
        text.push(name[i]);
        i = i + 1;
        assert(name@.take(i as int) == name@.take(i - 1).push(name@[i - 1]));
    }
    assert(name@.take(name@.len() as int) == name@);
}

fn piece_part(piece: Vec<u8>, leading: bool) -> (res: Option<Part<Vec<u8>>>)
    ensures
        match res {
            Some(part) => part_of(piece@, leading) == Some(part@),
            None => part_of(piece@, leading) is None,
        },
{
    if piece.len() == 0 {
        None
    } else if piece.len() == 1 && piece[0] == DOT {
        assert(piece@ =~= seq![DOT]);
        if leading {
            Some(Part::Here)
        } else {
            None
        }
    } else if piece.len() == 2 && piece[0] == DOT && piece[1] == DOT {
        assert(piece@ =~= seq![DOT, DOT]);
        Some(Part::Up)
    } else {
        Some(Part::Name(piece))
    }
}

impl FsPath {
    /// The path that the text `bytes` denotes.
    pub fn parse(bytes: &[u8]) -> (res: FsPath)
        ensures
            res@ == components(bytes@),
    {
        let mut res = FsPath { parts: Vec::new() };
        let ghost mut done: Seq<Seq<u8>> = Seq::empty();
        let ghost mut front: Path = Seq::empty();
        if bytes.len() > 0 && bytes[0] == SLASH {
            res.parts.push(Part::Root);
            proof {
                front = seq![Part::Root];
            }
        }
        assert(res@ =~= front);
        let mut piece: Vec<u8> = Vec::new();
        let mut leading = true;
        let mut i: usize = 0;
        assert(pieces(bytes@.take(0)) =~= done.push(piece@));
        while i < bytes.len()
            invariant
                i <= bytes@.len(),
                pieces(bytes@.take(i as int)) == done.push(piece@),
                leading == (done.len() == 0),
                res@ == front + parts_of(done),
            decreases bytes@.len() - i,
        {
            let b: u8 = bytes[i];
            proof {
                let longer = bytes@.take(i + 1);
                assert(longer.drop_last() == bytes@.take(i as int));
                assert(longer.last() == b);
                assert(done.push(piece@).drop_last() == done);
            }
            if b == SLASH {
                let ended = piece;
                piece = Vec::new();
                let ghost all = done.push(ended@);
                proof {
                    assert(all.drop_last() == done);
                    assert(all.last() == ended@);
                }
                let ghost before = res@;
                if let Some(part) = piece_part(ended, leading) {
                    let ghost view = part@;
                    res.parts.push(part);
                    assert(res@ =~= before.push(view));
                }
                assert(res@ =~= front + parts_of(all));
                proof {
                    done = all;
                }
                leading = false;
            } else {
                piece.push(b);
            }
            i = i + 1;
        }
        assert(bytes@.take(bytes@.len() as int) == bytes@);
        let ghost all = done.push(piece@);
        proof {
            assert(all.drop_last() == done);
            assert(all.last() == piece@);
        }
        let ghost before = res@;
        if let Some(part) = piece_part(piece, leading) {
            let ghost view = part@;
            res.parts.push(part);
            assert(res@ =~= before.push(view));
        }
        assert(res@ =~= front + parts_of(all));
        assert(res@ =~= components(bytes@));
        res
    }

    /// The text of this path.
    pub fn to_bytes(&self) -> (res: Vec<u8>)
        ensures
            res@ == render(self@),
    {
        let mut out: Vec<u8> = Vec::new();
        let mut i: usize = 0;
        while i < self.parts.len()
            invariant
                i <= self.parts@.len(),
                out@ == render(self@.take(i as int)),
            decreases self.parts@.len() - i,
        {
            assert(self@.take(i + 1).drop_last() == self@.take(i as int));
            assert(self@.take(i + 1).last() == self.parts@[i as int]@);
            match &self.parts[i] {
                Part::Root => {
                    let text: Vec<u8> = vec![SLASH];
                    assert(text@ =~= seq![SLASH]);
                    push_text(&mut out, &text);
                },
                Part::Here => {
                    let text: Vec<u8> = vec![DOT];
                    assert(text@ =~= seq![DOT]);
                    push_text(&mut out, &text);
                },
                Part::Up => {
                    let text: Vec<u8> = vec![DOT, DOT];
                    assert(text@ =~= seq![DOT, DOT]);
                    push_text(&mut out, &text);
                },
                Part::Name(name) => {
                    push_text(&mut out, name);
                },
            }
            i = i + 1;
        }
        assert(self@.take(self@.len() as int) == self@);
        out
    }

    /// The entry `name` of the folder that this path leads to.
    pub fn join(&self, name: Vec<u8>) -> (res: FsPath)
        ensures
            res@ == self@.push(Part::Name(name@)),
    {
        let mut res = self.clone();
        let ghost bytes = name@;
        res.parts.push(Part::Name(name));
        assert(res@ =~= self@.push(Part::Name(bytes)));
        res
    }

    /// The folder that holds this path's entry.
    pub fn parent(&self) -> (res: Option<FsPath>)
        ensures
            match res {
                Some(up) => parent_of(self@) == Some(up@),
                None => parent_of(self@) is None,
            },
    {
        let n: usize = self.parts.len();
        if n == 0 {
            return None;
        }
        assert(self@.last() == self.parts@[n - 1]@);
        match self.parts[n - 1] {
            Part::Root => None,
            _ => {
                let mut res = self.clone();
                let ghost whole = res.parts@;
                let _ = res.parts.pop();
                assert(res@ =~= self@.drop_last()) by {
                    assert forall|i: int| 0 <= i < n - 1 implies res@[i] == self@[i] by {
                        assert(res.parts@[i] == whole[i]);
                        assert(FsPath { parts: res.parts }@[i] == whole[i]@);
                    }
                }
                Some(res)
            },
        }
    }

    /// Whether this path is `base` or lies below it.
    pub fn starts_with(&self, base: &FsPath) -> (res: bool)
        ensures
            res == base@.is_prefix_of(self@),
    {
        if base.parts.len() > self.parts.len() {
            return false;
        }
        let ghost head = self@.subrange(0, base@.len() as int);
        let mut i: usize = 0;
        while i < base.parts.len()
            invariant
                i <= base.parts@.len() <= self.parts@.len(),
                head == self@.subrange(0, base@.len() as int),
                forall|k: int| 0 <= k < i ==> base@[k] == head[k],
            decreases base.parts@.len() - i,
        {
            if !same_part(&base.parts[i], &self.parts[i]) {
                assert(base@[i as int] != head[i as int]);
                return false;
            }
            i = i + 1;
        }
        assert(base@ =~= head);
        true
    }

    /// Whether the two paths are the same, part by part.
    pub fn same(&self, other: &FsPath) -> (res: bool)
        ensures
            res == (self@ == other@),
    {
        let res = self.parts.len() == other.parts.len() && self.starts_with(other);
        assert(self@ == self@.subrange(0, self@.len() as int));
        res
    }
}

proof fn pieces_hold_no_slash(s: Seq<u8>)
    ensures
        pieces(s).len() > 0,
        forall|i: int| 0 <= i < pieces(s).len() ==> !(#[trigger] pieces(s)[i]).contains(SLASH),
    decreases s.len(),
{
    if s.len() > 0 {
        pieces_hold_no_slash(s.drop_last());
        let before = pieces(s.drop_last());
        if s.last() != SLASH {
            assert forall|i: int| 0 <= i < pieces(s).len() implies !(
            #[trigger] pieces(s)[i]).contains(SLASH) by {
                if i < before.len() - 1 {
                    assert(pieces(s)[i] == before[i]);
                } else {
                    let last = before.last();
                    assert(!last.contains(SLASH));
                    assert(pieces(s)[i] == last.push(s.last()));
                    assert forall|k: int| 0 <= k < last.len() implies last[k] != SLASH by {
                        assert(last.contains(last[k]));
                    }
                }
            }
        } else {
            assert forall|i: int| 0 <= i < pieces(s).len() implies !(
            #[trigger] pieces(s)[i]).contains(SLASH) by {
                if i < before.len() {
                    assert(pieces(s)[i] == before[i]);
                }
            }
        }
    }
}

proof fn pieces_behind_a_slash(a: Seq<u8>, b: Seq<u8>)
    requires
        !b.contains(SLASH),
    ensures
        pieces(a.push(SLASH) + b) == pieces(a).push(b),
    decreases b.len(),
{
    let s = a.push(SLASH) + b;
    if b.len() == 0 {
        assert(s =~= a.push(SLASH));
        assert(s.drop_last() =~= a);
        assert(b =~= Seq::empty());
    } else {
        assert(b.last() != SLASH) by {
            assert(b.contains(b.last()));
        }
        assert(!b.drop_last().contains(SLASH)) by {
            if b.drop_last().contains(SLASH) {
                let k = choose|k: int|
                    0 <= k < b.drop_last().len() && b.drop_last()[k] == SLASH;
                assert(b[k] == SLASH);
            }
        }
        pieces_behind_a_slash(a, b.drop_last());
        assert(s.drop_last() =~= a.push(SLASH) + b.drop_last());
        let before = pieces(a).push(b.drop_last());
        assert(before.drop_last() =~= pieces(a));
        assert(b.drop_last().push(b.last()) =~= b);
    }
}

proof fn pieces_without_slash(b: Seq<u8>)
    requires
        !b.contains(SLASH),
    ensures
        pieces(b) == seq![b],
    decreases b.len(),
{
    if b.len() > 0 {
        assert(b.last() != SLASH) by {
            assert(b.contains(b.last()));
        }
        assert(!b.drop_last().contains(SLASH)) by {
            if b.drop_last().contains(SLASH) {
                let k = choose|k: int|
                    0 <= k < b.drop_last().len() && b.drop_last()[k] == SLASH;
                assert(b[k] == SLASH);
            }
        }
        pieces_without_slash(b.drop_last());
        assert(b.drop_last().push(b.last()) =~= b);
        assert(pieces(b) =~= seq![b]);
    } else {
        assert(b =~= Seq::empty());
    }
}

/// What stands behind a slash follows what stands before it.
pub proof fn reading_goes_on_behind_a_slash(front: Seq<u8>, piece: Seq<u8>)
    requires
        !piece.contains(SLASH),
    ensures
        components(piece) == match part_of(piece, true) {
            Some(part) => seq![part],
            None => Seq::empty(),
        },
        front.len() > 0 ==> components(front.push(SLASH) + piece) == match part_of(piece, false) {
            Some(part) => components(front).push(part),
            None => components(front),
        },
        components(Seq::<u8>::empty().push(SLASH) + piece) == match part_of(piece, false) {
            Some(part) => seq![Part::<Seq<u8>>::Root].push(part),
            None => seq![Part::<Seq<u8>>::Root],
        },
{
    reveal_with_fuel(parts_of, 3);
    let none = Seq::<u8>::empty();
    pieces_without_slash(piece);
    if piece.len() > 0 {
        assert(piece.contains(piece[0]));
    }
    assert(seq![piece].drop_last() =~= Seq::empty());
    assert(components(piece) =~= match part_of(piece, true) {
        Some(part) => seq![part],
        None => Seq::empty(),
    });
    pieces_behind_a_slash(none, piece);
    let rooted = none.push(SLASH) + piece;
    assert(pieces(none) =~= seq![none]);
    assert(pieces(rooted) =~= seq![none, piece]);
    assert(seq![none, piece].drop_last() =~= seq![none]);
    assert(seq![none].drop_last() =~= Seq::empty());
    assert(rooted[0] == SLASH);
    assert(components(rooted) =~= match part_of(piece, false) {
        Some(part) => seq![Part::<Seq<u8>>::Root].push(part),
        None => seq![Part::<Seq<u8>>::Root],
    });
    if front.len() > 0 {
        let all = front.push(SLASH) + piece;
        pieces_behind_a_slash(front, piece);
        pieces_hold_no_slash(front);
        let list = pieces(all);
        assert(list.drop_last() =~= pieces(front));
        assert(list.last() == piece);
        assert(list.len() > 1);
        assert(all[0] == front[0]);
        assert(components(all) =~= match part_of(piece, false) {
            Some(part) => components(front).push(part),
            None => components(front),
        });
    }
}

proof fn parts_of_pieces_is_path(list: Seq<Seq<u8>>)
    requires
        forall|i: int| 0 <= i < list.len() ==> !(#[trigger] list[i]).contains(SLASH),
    ensures
        is_path(parts_of(list)),
        forall|i: int| 0 <= i < parts_of(list).len() ==> !(#[trigger] parts_of(list)[i] is Root),
        list.len() == 1 || (list.len() > 0 && list[0].len() == 0) ==> forall|i: int|
            0 < i < parts_of(list).len() ==> !(#[trigger] parts_of(list)[i] is Here),
        list.len() > 0 && list[0].len() == 0 ==> forall|i: int|
            0 <= i < parts_of(list).len() ==> !(#[trigger] parts_of(list)[i] is Here),
        list.len() <= 1 ==> parts_of(list).len() <= 1,
    decreases list.len(),
{
    if list.len() > 0 {
        let before = list.drop_last();
        assert forall|i: int| 0 <= i < before.len() implies !(#[trigger] before[i]).contains(
            SLASH,
        ) by {
            assert(before[i] == list[i]);
        }
        parts_of_pieces_is_path(before);
        if list.len() > 1 {
            assert(before[0] == list[0]);
        }
        assert(!list.last().contains(SLASH));
    }
}

/// The reading of any text is a path: its names can name entries, and the root or a `.` stands
/// only in front.
pub proof fn components_form_a_path(s: Seq<u8>)
    ensures
        is_path(components(s)),
{
    pieces_hold_no_slash(s);
    parts_of_pieces_is_path(pieces(s));
    if s.len() > 0 && s[0] == SLASH {
        rooted_text_has_an_empty_first_piece(s);
        let p = components(s);
        assert forall|i: int| 0 <= i < p.len() implies match #[trigger] p[i] {
            Part::Root => i == 0,
            Part::Here => i == 0,
            Part::Up => true,
            Part::Name(name) => is_file_name(name),
        } by {
            if i > 0 {
                assert(p[i] == parts_of(pieces(s))[i - 1]);
            }
        }
    }
}

proof fn rooted_text_has_an_empty_first_piece(s: Seq<u8>)
    requires
        s.len() > 0,
        s[0] == SLASH,
    ensures
        pieces(s).len() > 1,
        pieces(s)[0].len() == 0,
    decreases s.len(),
{
    pieces_hold_no_slash(s.drop_last());
    if s.len() == 1 {
        assert(s.drop_last() =~= Seq::empty());
    } else {
        rooted_text_has_an_empty_first_piece(s.drop_last());
    }
}

proof fn shorter_path(path: Path)
    requires
        is_path(path),
        path.len() > 0,
    ensures
        is_path(path.drop_last()),
{
    assert forall|i: int| 0 <= i < path.drop_last().len() implies match #[trigger] path.drop_last()[i] {
        Part::Root => i == 0,
        Part::Here => i == 0,
        Part::Up => true,
        Part::Name(name) => is_file_name(name),
    } by {
        assert(path.drop_last()[i] == path[i]);
    }
}

proof fn part_text_has_no_slash(part: Part<Seq<u8>>)
    requires
        part !is Root,
        part matches Part::Name(name) ==> is_file_name(name),
    ensures
        part_text(part).len() > 0,
        !part_text(part).contains(SLASH),
{
}

proof fn rendered_begins_as_the_path(path: Path)
    requires
        is_path(path),
        path.len() > 0,
    ensures
        render(path).len() > 0,
        render(path)[0] == SLASH <==> path[0] is Root,
        render(path).last() == SLASH <==> path.len() == 1 && path[0] is Root,
    decreases path.len(),
{
    let last = path.last();
    assert(last == path[path.len() - 1]);
    if path.len() > 1 {
        shorter_path(path);
        rendered_begins_as_the_path(path.drop_last());
        assert(path.drop_last()[0] == path[0]);
        part_text_has_no_slash(last);
        let t = part_text(last);
        assert(t.contains(t.last()));
    } else {
        assert(path.drop_last() =~= Seq::empty());
        assert(render(path.drop_last()).len() == 0);
        if last !is Root {
            part_text_has_no_slash(last);
            let t = part_text(last);
            assert(t.contains(t.last()));
            assert(t.contains(t[0]));
        }
    }
}

/// Writing a path out and reading it again gives the path back.
pub proof fn rendering_reads_back(path: Path)
    requires
        is_path(path),
    ensures
        components(render(path)) == path,
    decreases path.len(),
{
    reveal_with_fuel(parts_of, 3);
    reveal_with_fuel(pieces, 3);
    if path.len() == 0 {
        assert(render(path) =~= Seq::empty());
        assert(pieces(render(path)) =~= seq![Seq::<u8>::empty()]);
        assert(components(render(path)) =~= path);
    } else {
        let last = path.last();
        assert(last == path[path.len() - 1]);
        let t = part_text(last);
        if path.len() == 1 {
            assert(path.drop_last() =~= Seq::empty());
            assert(render(path.drop_last()).len() == 0);
            assert(render(path) =~= t);
            if last is Root {
                assert(t.drop_last() =~= Seq::empty());
                let list = pieces(t);
                assert(list =~= seq![Seq::<u8>::empty(), Seq::<u8>::empty()]);
                assert(list.drop_last() =~= seq![Seq::<u8>::empty()]);
                assert(list.drop_last().drop_last() =~= Seq::empty());
                assert(parts_of(list) =~= Seq::empty());
                assert(components(t) =~= path);
            } else {
                part_text_has_no_slash(last);
                pieces_without_slash(t);
                assert(t.contains(t[0]));
                assert(seq![t].drop_last() =~= Seq::empty());
                assert(part_of(t, true) == Some(last));
                assert(components(t) =~= path);
            }
        } else {
            let front = path.drop_last();
            shorter_path(path);
            rendering_reads_back(front);
            rendered_begins_as_the_path(front);
            part_text_has_no_slash(last);
            let head = render(front);
            assert(front[0] == path[0]);
            assert(part_of(t, false) == Some(last));
            if head.last() == SLASH {
                assert(front =~= seq![Part::Root]);
                assert(render(front.drop_last()).len() == 0) by {
                    assert(front.drop_last() =~= Seq::empty());
                }
                assert(head =~= seq![SLASH]);
                let nothing = Seq::<u8>::empty();
                assert(render(path) =~= nothing.push(SLASH) + t);
                pieces_behind_a_slash(nothing, t);
                let list = pieces(render(path));
                assert(list =~= seq![nothing, t]);
                assert(list.drop_last() =~= seq![nothing]);
                assert(list.drop_last().drop_last() =~= Seq::empty());
                assert(parts_of(list) =~= seq![last]);
                assert(components(render(path)) =~= path);
            } else {
                pieces_behind_a_slash(head, t);
                let list = pieces(render(path));
                assert(list.drop_last() =~= pieces(head));
                pieces_hold_no_slash(head);
                assert(parts_of(list) == parts_of(pieces(head)).push(last));
                assert(render(path)[0] == head[0]);
                assert(components(render(path)) =~= components(head).push(last));
                assert(components(render(path)) =~= path);
            }
        }
    }
}

} // verus!
