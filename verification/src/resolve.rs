//! Resolving a caller-supplied note path inside the picked folder, as far as its text goes.

use vstd::prelude::*;
use vstd::slice::slice_to_vec;
use vstd::utf8::{
    decode_utf8, decode_utf8_encode_utf8, encode_utf8_decode_utf8, encode_utf8_valid_utf8,
    valid_utf8, valid_utf8_concat,
};

use crate::path::{
    components, is_file_name, name_of, parent_of, push_text, pushed_text, FsPath, Part, Path, DOT,
    SLASH,
};
use crate::names::is_note_name;
use crate::text::{
    decimal, decimal_has_only_digits, decimal_text, joined, quoted, quoting, shown,
};

verus! {

/// Suffix of the staging file that a save writes before it renames it over the target.
pub const WRITE_TMP_SUFFIX: &'static str = ".gn-tmp";

/// What the name begins with that a folder is given before it is removed with all that is in it; a
/// number follows.
pub const REMOVED_PREFIX: &'static str = ".gn-removed-";

/// What a refusal of a note path begins with.
pub const INVALID_PATH: &'static str = "invalid note path: ";

/// The bytes of a text.
pub open spec fn utf8(s: Seq<char>) -> Seq<u8> {
    vstd::utf8::encode_utf8(s)
}

/// Whether a relative path tries to leave the folder it is resolved in: it starts at the root or
/// goes up somewhere.
pub open spec fn escapes(rel: Path) -> bool {
    exists|i: int| 0 <= i < rel.len() && (#[trigger] rel[i] is Root || rel[i] is Up)
}

/// Whether a part is an ordinary name.
pub open spec fn is_name(part: Part<Seq<u8>>) -> bool {
    part is Name
}

/// The names of a relative path, one below the other, below `dir`.
pub open spec fn within(dir: Path, rel: Path) -> Path {
    dir + rel.filter(|part: Part<Seq<u8>>| is_name(part))
}

/// The text of `within`: each name put behind the text of `dir`.
pub open spec fn within_text(dir: Seq<u8>, rel: Path) -> Seq<u8>
    decreases rel.len(),
{
    if rel.len() == 0 {
        dir
    } else {
        let before = within_text(dir, rel.drop_last());
        match rel.last() {
            Part::Name(name) => pushed_text(before, name),
            _ => before,
        }
    }
}

/// Whether a caller-supplied path leads to something in the picked folder, and not to the folder
/// itself, as no text and `.` do.
pub open spec fn names_something(name: Seq<char>) -> bool {
    has_name(components(utf8(name)))
}

/// Whether one of the parts is an ordinary name.
pub open spec fn has_name(rel: Path) -> bool {
    exists|i: int| 0 <= i < rel.len() && is_name(#[trigger] rel[i])
}

/// Whether a caller-supplied path leads to something in the picked folder, and not to the folder
/// itself.
pub fn names_an_entry(name: &str) -> (res: bool)
    ensures
        res == names_something(name@),
{
    let rel = FsPath::parse(name.as_bytes());
    let mut i: usize = 0;
    while i < rel.parts.len()
        invariant
            i <= rel.parts@.len(),
            rel@ == components(utf8(name@)),
            forall|k: int| 0 <= k < i ==> !is_name(#[trigger] rel@[k]),
        decreases rel.parts@.len() - i,
    {
        assert(rel@[i as int] == rel.parts@[i as int]@);
        if let Part::Name(_) = &rel.parts[i] {
            assert(is_name(rel@[i as int]));
            return true;
        }
        i = i + 1;
    }
    false
}

/// A path that names something resolves to more than the picked folder, and only such a path does.
pub proof fn a_named_path_is_longer(dir: Path, name: Seq<char>)
    ensures
        names_something(name) <==> within(dir, components(utf8(name))).len() > dir.len(),
{
    let rel = components(utf8(name));
    let pred = |part: Part<Seq<u8>>| is_name(part);
    let names = rel.filter(pred);
    if has_name(rel) {
        let i = choose|i: int| 0 <= i < rel.len() && is_name(#[trigger] rel[i]);
        assert(pred(rel[i]));
        rel.lemma_filter_contains(pred, i);
        assert(names.len() > 0);
    }
    if names.len() > 0 {
        rel.lemma_filter_contains_rev(pred, names[0]);
        rel.lemma_filter_pred(pred, 0);
        let j = choose|j: int| 0 <= j < rel.len() && rel[j] == names[0];
        assert(is_name(rel[j]));
    }
}

/// The refusal of a note path.
pub open spec fn refusal(shown: Seq<char>) -> Seq<char> {
    quoting(INVALID_PATH@, shown, Seq::empty())
}

/// The message that refuses a note path.
pub fn refuse(shown: &str) -> (res: String)
    ensures
        res@ == refusal(shown@),
{
    proof {
        reveal_strlit("");
    }
    let res = quoted(INVALID_PATH, shown, "");
    assert(""@ =~= Seq::<char>::empty());
    res
}

/// Resolves the caller-supplied `name` inside `dir` by its text alone. Refuses a name that starts
/// at the root or holds a `..`; every other name gives a path below `dir`.
pub fn resolve_within(dir: &str, name: &str) -> (res: Result<FsPath, String>)
    ensures
        match res {
            Ok(path) => {
                &&& !escapes(components(utf8(name@)))
                &&& path@ == within(components(utf8(dir@)), components(utf8(name@)))
            },
            Err(message) => {
                &&& escapes(components(utf8(name@)))
                &&& message@ == refusal(name@)
            },
        },
{
    let rel = FsPath::parse(name.as_bytes());
    let mut out = FsPath::parse(dir.as_bytes());
    let ghost base = out@;
    let ghost pred = |part: Part<Seq<u8>>| is_name(part);
    let mut i: usize = 0;
    assert(rel@.take(0).filter(pred) =~= Seq::empty()) by {
        reveal(Seq::filter);
    }
    while i < rel.parts.len()
        invariant
            i <= rel.parts@.len(),
            rel@ == components(utf8(name@)),
            base == components(utf8(dir@)),
            pred == (|part: Part<Seq<u8>>| is_name(part)),
            out@ == base + rel@.take(i as int).filter(pred),
            forall|k: int| 0 <= k < i ==> !(#[trigger] rel@[k] is Root || rel@[k] is Up),
        decreases rel.parts@.len() - i,
    {
        let ghost longer = rel@.take(i + 1);
        proof {
            assert(longer.drop_last() == rel@.take(i as int));
            assert(longer.last() == rel@[i as int]);
            reveal(Seq::filter);
        }
        match &rel.parts[i] {
            Part::Name(segment) => {
                let ghost before = out@;
                out.parts.push(Part::Name(slice_to_vec(segment.as_slice())));
                assert(out@ =~= before.push(rel@[i as int]));
                assert(out@ =~= base + longer.filter(pred));
            },
            Part::Here => {
                assert(!pred(rel@[i as int]));
            },
            _ => {
                assert(rel@[i as int] is Root || rel@[i as int] is Up);
                return Err(refuse(name));
            },
        }
        i = i + 1;
    }
    assert(rel@.take(rel@.len() as int) == rel@);
    Ok(out)
}

/// The text of the path that `resolve_within` gives, with `dir` as the caller wrote it.
pub fn text_within(dir: &str, name: &str) -> (res: Vec<u8>)
    ensures
        res@ == within_text(utf8(dir@), components(utf8(name@))),
{
    let rel = FsPath::parse(name.as_bytes());
    let mut out: Vec<u8> = slice_to_vec(dir.as_bytes());
    let mut i: usize = 0;
    while i < rel.parts.len()
        invariant
            i <= rel.parts@.len(),
            rel@ == components(utf8(name@)),
            out@ == within_text(utf8(dir@), rel@.take(i as int)),
        decreases rel.parts@.len() - i,
    {
        assert(rel@.take(i + 1).drop_last() == rel@.take(i as int));
        assert(rel@.take(i + 1).last() == rel@[i as int]);
        if let Part::Name(segment) = &rel.parts[i] {
            push_text(&mut out, segment);
        }
        i = i + 1;
    }
    assert(rel@.take(rel@.len() as int) == rel@);
    out
}

/// The staging file of a save of `path`: beside it, its name with the suffix behind it.
pub open spec fn staging_of(path: Path) -> Path {
    let name = match name_of(path) {
        Some(name) => name,
        None => Seq::empty(),
    };
    let folder = match parent_of(path) {
        Some(folder) => folder,
        None => Seq::empty(),
    };
    folder.push(Part::Name(name + utf8(WRITE_TMP_SUFFIX@)))
}

/// `<path>.gn-tmp` next to the target. The suffix is not that of a note, so listings ignore the
/// file even while it exists.
pub fn tmp_sibling(path: &FsPath) -> (res: FsPath)
    ensures
        res@ == staging_of(path@),
{
    let mut name: Vec<u8> = Vec::new();
    let n: usize = path.parts.len();
    if n > 0 {
        assert(path@.last() == path.parts@[n - 1]@);
        if let Part::Name(last) = &path.parts[n - 1] {
            name = slice_to_vec(last.as_slice());
        }
    }
    let mut suffix: Vec<u8> = slice_to_vec(WRITE_TMP_SUFFIX.as_bytes());
    name.append(&mut suffix);
    match path.parent() {
        Some(folder) => folder.join(name),
        None => {
            let nowhere = FsPath { parts: Vec::new() };
            assert(nowhere@ =~= Seq::empty());
            nowhere.join(name)
        },
    }
}

/// A place that `path` can be renamed to before it is removed, the one with this number: beside it,
/// and with a name that begins with a dot, so no walk goes into it.
pub open spec fn aside_of(path: Path, number: u32) -> Path {
    let folder = match parent_of(path) {
        Some(folder) => folder,
        None => Seq::empty(),
    };
    folder.push(Part::Name(utf8(REMOVED_PREFIX@ + decimal(number as nat))))
}

/// A place that `path` can be renamed to before it is removed with all that is in it.
pub fn aside(path: &FsPath, number: u32) -> (res: FsPath)
    ensures
        res@ == aside_of(path@, number),
{
    let digits = decimal_text(number);
    let text = joined(REMOVED_PREFIX, digits.as_str());
    let name: Vec<u8> = slice_to_vec(text.as_str().as_bytes());
    match path.parent() {
        Some(folder) => folder.join(name),
        None => {
            let nowhere = FsPath { parts: Vec::new() };
            assert(nowhere@ =~= Seq::empty());
            nowhere.join(name)
        },
    }
}

/// What a folder is renamed to before it is removed lies beside it, under a name that an entry can
/// have and that begins with a dot.
pub proof fn aside_is_beside_the_folder(path: Path, number: u32)
    ensures
        parent_of(path) matches Some(folder) ==> parent_of(aside_of(path, number)) == Some(folder),
        aside_of(path, number).last() matches Part::Name(name) && is_file_name(name) && name[0]
            == DOT,
{
    let folder = match parent_of(path) {
        Some(folder) => folder,
        None => Seq::empty(),
    };
    let all = aside_of(path, number);
    let digits = decimal(number as nat);
    let text = REMOVED_PREFIX@ + digits;
    reveal_strlit(".gn-removed-");
    decimal_has_only_digits(number as nat);
    assert forall|i: int| 0 <= i < text.len() implies '\0' <= #[trigger] text[i] <= '\u{7f}' && text[i]
        != '/' by {
        if i >= REMOVED_PREFIX@.len() {
            assert(text[i] == digits[i - REMOVED_PREFIX@.len()]);
        }
    }
    vstd::utf8::is_ascii_chars_encode_utf8(text);
    let name = utf8(text);
    assert forall|i: int| 0 <= i < name.len() implies name[i] != SLASH by {
        assert(text[i] as u8 == name[i]);
    }
    assert(text[0] == '.' && text[0] as u8 == name[0]);
    assert(seq![DOT].len() == 1 && seq![DOT, DOT].len() == 2);
    assert(all.drop_last() =~= folder);
}

/// Whether `path` lies below `base`, or is it: what follows `base` in it is nothing but names
/// that can name an entry of a folder.
pub open spec fn is_below(base: Path, path: Path) -> bool {
    &&& base.is_prefix_of(path)
    &&& forall|i: int|
        base.len() <= i < path.len() ==> (#[trigger] path[i] matches Part::Name(name)
            && is_file_name(name))
}

/// A name that is not refused resolves to a path below the picked folder.
pub proof fn resolving_stays_below(dir: Path, name: Seq<u8>)
    requires
        !escapes(components(name)),
    ensures
        is_below(dir, within(dir, components(name))),
{
    let rel = components(name);
    let pred = |part: Part<Seq<u8>>| is_name(part);
    let names = rel.filter(pred);
    let path = within(dir, rel);
    crate::path::components_form_a_path(name);
    assert(path.subrange(0, dir.len() as int) =~= dir);
    assert forall|i: int| dir.len() <= i < path.len() implies (#[trigger] path[i] matches Part::Name(n)
        && is_file_name(n)) by {
        let k = i - dir.len();
        assert(path[i] == names[k]);
        rel.lemma_filter_contains_rev(pred, names[k]);
        rel.lemma_filter_pred(pred, k);
        assert(rel.contains(names[k]));
        let j = choose|j: int| 0 <= j < rel.len() && rel[j] == names[k];
        assert(rel[j] is Name);
    }
}

/// The staging file of a save is no note, so no listing shows it.
pub proof fn staging_file_is_no_note(path: Path)
    requires
        name_of(path) matches Some(name) ==> valid_utf8(name),
    ensures
        name_of(staging_of(path)) matches Some(name) && !is_note_name(shown(name)),
{
    let front = match name_of(path) {
        Some(name) => name,
        None => Seq::empty(),
    };
    let suffix = utf8(WRITE_TMP_SUFFIX@);
    let whole = front + suffix;
    assert(staging_of(path).last() == Part::Name(whole));
    encode_utf8_valid_utf8(WRITE_TMP_SUFFIX@);
    encode_utf8_decode_utf8(WRITE_TMP_SUFFIX@);
    assert(valid_utf8(front));
    valid_utf8_concat(front, suffix);
    decoding_splits(front, suffix);
    reveal_strlit(".gn-tmp");
    reveal_strlit(".md");
    reveal_strlit(".MD");
    let text = decode_utf8(whole);
    assert(text.last() == 'p');
    assert(text.subrange(text.len() - 3, text.len() as int)[2] == 'p');
}

/// The text of bytes in two parts is the texts of the parts, one behind the other.
pub proof fn decoding_splits(a: Seq<u8>, b: Seq<u8>)
    requires
        valid_utf8(a),
        valid_utf8(b),
    ensures
        decode_utf8(a + b) == decode_utf8(a) + decode_utf8(b),
{
    decode_utf8_encode_utf8(a);
    decode_utf8_encode_utf8(b);
    let x = decode_utf8(a);
    let y = decode_utf8(b);
    encoding_joins(x, y);
    encode_utf8_decode_utf8(x + y);
}

/// The bytes of two texts, one behind the other, are those of the texts.
pub proof fn encoding_joins(x: Seq<char>, y: Seq<char>)
    ensures
        utf8(x + y) == utf8(x) + utf8(y),
    decreases x.len(),
{
    if x.len() == 0 {
        assert(x + y =~= y);
        assert(utf8(x) + utf8(y) =~= utf8(y));
    } else {
        encoding_joins(x.drop_first(), y);
        assert((x + y).drop_first() =~= x.drop_first() + y);
        assert(utf8(x + y) =~= utf8(x) + utf8(y));
    }
}

} // verus!
