//! Names, texts and paths, held against the standard library.

use std::path::{Component, Path, PathBuf};

use gravity_notes::listing::trim_trailing_slashes;
use gravity_notes::names::{is_md, is_skipped_dir, starts_with_dot};
use gravity_notes::path::{FsPath, Part};
use gravity_notes::resolve::{resolve_within, text_within, tmp_sibling};
use gravity_notes::text::{
    decimal_text, ends_with, joined, quoted, same_text, starts_with, text_precedes,
};
use gravity_notes::walk::note_id;

fn every_char() -> Vec<char> {
    (0u32..=0x10ffff).filter_map(char::from_u32).collect()
}

#[test]
fn a_note_name_is_told_as_by_lowering_its_case() {
    for c in every_char() {
        for name in [format!("a{c}md"), format!("a.{c}d"), format!("a.m{c}"), format!("a.md{c}")] {
            assert_eq!(is_md(&name), name.to_lowercase().ends_with(".md"), "{name:?}");
        }
    }
    assert!(is_md(".md"));
    assert!(is_md("Note.mD"));
    assert!(!is_md("md"));
    assert!(!is_md(""));
}

#[test]
fn a_skipped_folder_is_told_as_by_lowering_its_case() {
    let skipped: Vec<char> = "node_modules".chars().collect();
    for c in every_char() {
        for at in [0, 1, 2, 3, 4, 5, 8, 9, 10, 11] {
            let mut letters = skipped.clone();
            letters[at] = c;
            let name: String = letters.into_iter().collect();
            let expected = name.starts_with('.') || name.to_lowercase() == "node_modules";
            assert_eq!(is_skipped_dir(&name), expected, "{name:?}");
        }
    }
    assert!(is_skipped_dir("Node_Modules"));
    assert!(is_skipped_dir(".git"));
    assert!(!is_skipped_dir("node_modules2"));
    assert!(!is_skipped_dir(""));
    assert!(starts_with_dot(".a"));
    assert!(!starts_with_dot("a."));
}

/// All texts of at most `n` characters out of these.
fn all_texts(n: usize, letters: &[char]) -> Vec<String> {
    let mut all = vec![String::new()];
    let mut last = all.clone();
    for _ in 0..n {
        let mut next = Vec::new();
        for text in &last {
            for c in letters {
                next.push(format!("{text}{c}"));
            }
        }
        all.extend(next.iter().cloned());
        last = next;
    }
    all
}

fn same_parts(path: &FsPath, expected: &Path) -> bool {
    let parts: Vec<Component> = expected.components().collect();
    parts.len() == path.parts.len()
        && parts.iter().zip(path.parts.iter()).all(|(a, b)| match (a, b) {
            (Component::RootDir, Part::Root) => true,
            (Component::CurDir, Part::Here) => true,
            (Component::ParentDir, Part::Up) => true,
            (Component::Normal(x), Part::Name(y)) => x.to_str().unwrap().as_bytes() == &y[..],
            _ => false,
        })
}

#[test]
fn paths_are_read_as_the_standard_library_reads_them() {
    for text in all_texts(7, &['/', '.', 'a']) {
        let ours = FsPath::parse(text.as_bytes());
        let theirs = Path::new(&text);
        assert!(same_parts(&ours, theirs), "{text:?}");
        let rendered: PathBuf = theirs.components().collect();
        assert_eq!(ours.to_bytes(), rendered.to_str().unwrap().as_bytes(), "{text:?}");
        match (ours.parent(), theirs.parent()) {
            (None, None) => {}
            (Some(a), Some(b)) => assert!(same_parts(&a, b), "{text:?}"),
            _ => panic!("{text:?}"),
        }
    }
}

#[test]
fn prefixes_of_paths_are_those_of_the_standard_library() {
    let texts = all_texts(4, &['/', '.', 'a']);
    for a in &texts {
        for b in &texts {
            let x = FsPath::parse(a.as_bytes());
            let y = FsPath::parse(b.as_bytes());
            assert_eq!(x.starts_with(&y), Path::new(a).starts_with(b), "{a:?} {b:?}");
            assert_eq!(x.same(&y), Path::new(a) == Path::new(b), "{a:?} {b:?}");
        }
    }
}

/// What resolving means, said with the standard library.
fn resolved(dir: &str, name: &str) -> Option<PathBuf> {
    if Path::new(name).is_absolute() {
        return None;
    }
    let mut out = PathBuf::from(dir);
    for component in Path::new(name).components() {
        match component {
            Component::Normal(segment) => out.push(segment),
            Component::CurDir => {}
            _ => return None,
        }
    }
    Some(out)
}

#[test]
fn names_resolve_inside_the_folder_or_are_refused() {
    for name in all_texts(6, &['/', '.', 'a']) {
        for dir in ["/n", "n/", "", "."] {
            match (resolve_within(dir, &name), resolved(dir, &name)) {
                (Ok(path), Some(expected)) => {
                    assert!(same_parts(&path, &expected), "{dir:?} {name:?}");
                    assert_eq!(
                        text_within(dir, &name),
                        expected.to_str().unwrap().as_bytes(),
                        "{dir:?} {name:?}"
                    );
                }
                (Err(message), None) => {
                    assert_eq!(message, format!("invalid note path: \"{name}\""));
                }
                _ => panic!("{dir:?} {name:?}"),
            }
        }
    }
}

#[test]
fn the_staging_file_stands_beside_its_target() {
    let staging = |text: &str| {
        String::from_utf8(tmp_sibling(&FsPath::parse(text.as_bytes())).to_bytes()).unwrap()
    };
    assert_eq!(staging("/n/a.md"), "/n/a.md.gn-tmp");
    assert_eq!(staging("a.md"), "a.md.gn-tmp");
    assert_eq!(staging("/"), ".gn-tmp");
    assert_eq!(staging("/n/.."), "/n/.gn-tmp");
    assert!(!is_md(&staging("/n/a.md")));
}

#[test]
fn texts_are_ordered_as_strings_are() {
    let mut texts = all_texts(3, &['a', 'b', 'Z', '\u{e9}', '\u{1f600}']);
    texts.push("a\u{ffff}".to_string());
    for a in &texts {
        for b in &texts {
            assert_eq!(text_precedes(a, b), a < b, "{a:?} {b:?}");
            assert_eq!(same_text(a, b), a == b);
            assert_eq!(starts_with(a, b), a.starts_with(b.as_str()));
            assert_eq!(ends_with(a, b), a.ends_with(b.as_str()));
        }
    }
}

#[test]
fn numbers_are_written_in_decimal() {
    for n in (0u32..2000).chain([u32::MAX - 1, u32::MAX, 1_000_000_000]) {
        assert_eq!(decimal_text(n), n.to_string());
    }
}

#[test]
fn messages_quote_what_they_name() {
    assert_eq!(quoted("say ", "h\u{e9}", "!"), "say \"h\u{e9}\"!");
    assert_eq!(joined("a", "b"), "ab");
}

#[test]
fn trailing_slashes_are_trimmed() {
    for text in all_texts(5, &['/', 'a']) {
        assert_eq!(trim_trailing_slashes(&text), text.trim_end_matches('/'));
    }
}

#[test]
fn ids_show_bytes_that_are_no_text_lossily() {
    assert_eq!(note_id(&b"a\xffb".to_vec()), "a\u{fffd}b");
    assert_eq!(note_id(&"caf\u{e9}/x.md".as_bytes().to_vec()), "caf\u{e9}/x.md");
    assert_eq!(note_id(&b"a\\b".to_vec()), "a/b");
}

#[test]
fn the_text_of_a_path_reads_back_as_the_path() {
    for text in all_texts(6, &['/', '.', 'a']) {
        let path = FsPath::parse(text.as_bytes());
        assert!(FsPath::parse(&path.to_bytes()).same(&path), "{text:?}");
    }
}
