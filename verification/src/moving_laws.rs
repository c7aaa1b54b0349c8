//! What the commands that rename, move and remove do, from their beginning to their end, on a disk
//! that holds files and folders.

use vstd::prelude::*;

use crate::disk_laws::target_of;
use crate::fsio::{Entry, Fault, IoFault, Listing};
use crate::job::{
    done, failed, prune_after, pruned, resolved, root_of, AfterFolder, Flat, Outcome, Phase, Task,
};
use crate::listing::{not_empty, only_a_marked_folder_is_removable, removable, removal_visit};
use crate::names::FOLDER_MARKER;
use crate::path::{parent_of, Part, Path};
use crate::relocate::Moving;
use crate::resolve::{aside_is_beside_the_folder, aside_of, utf8};
use crate::rule_laws::messages_read;
use crate::world::{
    a_command_has_one_end, can_move, has_folder, is_blocked, is_child, is_empty_folder, is_home,
    is_honest, is_on_the_way, is_there, is_tidy, is_tree, is_true_entry, is_true_listing,
    leads_a_step, leads_by_a_step, leads_on, leads_to, lists_name, moved, refusal_of, stepped,
    was_at, with_folders, without_all, without_file, without_folder, Running, System, World,
};
use crate::world_laws::{
    emptied, ended_with, folders_are_made, goes_on_from_there, is_open_path, last_change,
    made_folders_are_tidy, moved_is_tidy, pruning_follows, pruning_takes_only_empty_folders,
    shorter_is_open, started, target_is_below, targets_have_good_names,
};

verus! {

/// The disk after `from` has gone to `to`: the folders above `to` are there, and those that `from`
/// has left empty are gone.
pub open spec fn after_move(w: World, root: Path, from: Path, to: Path) -> World {
    emptied(moved(with_folders(w, to.drop_last()), from, to), root, from.drop_last())
}

/// Everything that was in a folder, at any depth, is at the same place in the folder that it was
/// moved to, byte for byte, and no longer at the old place; no other file is touched.
pub proof fn a_move_carries_everything_along(
    w: World,
    root: Path,
    from: Path,
    to: Path,
    rest: Path,
    other: Path,
)
    requires
        w.folders.contains(from),
        !w.files.contains_key(from),
        !from.is_prefix_of(to),
        !to.is_prefix_of(from),
        !from.is_prefix_of(other),
        !to.is_prefix_of(other),
    ensures
        ({
            let v = after_move(w, root, from, to);
            &&& v.files.contains_key(to + rest) <==> w.files.contains_key(from + rest)
            &&& w.files.contains_key(from + rest) ==> v.files[to + rest] == w.files[from + rest]
            &&& !v.files.contains_key(from + rest)
            &&& v.files.contains_key(other) <==> w.files.contains_key(other)
            &&& w.files.contains_key(other) ==> v.files[other] == w.files[other]
        }),
{
    let made = with_folders(w, to.drop_last());
    let gone = moved(made, from, to);
    pruning_takes_only_empty_folders(gone, root, from.drop_last(), to + rest);
    let p = to + rest;
    assert(to.is_prefix_of(p)) by {
        assert(p.subrange(0, to.len() as int) =~= to);
    }
    assert(was_at(from, to, p) =~= from + rest) by {
        assert(p.skip(to.len() as int) =~= rest);
    }
    let q = from + rest;
    assert(from.is_prefix_of(q)) by {
        assert(q.subrange(0, from.len() as int) =~= from);
    }
    assert(!to.is_prefix_of(q)) by {
        if to.is_prefix_of(q) {
            if to.len() <= from.len() {
                assert(from.subrange(0, to.len() as int) =~= q.subrange(0, to.len() as int));
            } else {
                assert(to.subrange(0, from.len() as int) =~= q.subrange(0, from.len() as int));
            }
        }
    }
}

/// A file that is renamed is, byte for byte, at its new place, and no longer at the old one; no other
/// file is touched.
pub proof fn a_renamed_file_stays_the_same(w: World, root: Path, from: Path, to: Path, other: Path)
    requires
        w.files.contains_key(from),
        from != to,
        other != from,
        other != to,
    ensures
        ({
            let v = after_move(w, root, from, to);
            &&& v.files.contains_key(to) && v.files[to] == w.files[from]
            &&& !v.files.contains_key(from)
            &&& v.files.contains_key(other) <==> w.files.contains_key(other)
            &&& w.files.contains_key(other) ==> v.files[other] == w.files[other]
        }),
{
    let made = with_folders(w, to.drop_last());
    pruning_takes_only_empty_folders(moved(made, from, to), root, from.drop_last(), to);
}

/// What is there lies in folders that are there.
pub proof fn folders_above_are_there(w: World, p: Path, j: int)
    requires
        is_tree(w),
        is_there(w, p),
        1 <= j < p.len(),
    ensures
        w.folders.contains(p.take(j)),
    decreases p.len(),
{
    let up = p.drop_last();
    if j < up.len() {
        folders_above_are_there(w, up, j);
        assert(up.take(j) =~= p.take(j));
    } else {
        assert(up =~= p.take(j));
    }
}

proof fn nothing_is_below_what_is_missing(w: World, p: Path, q: Path)
    requires
        is_tree(w),
        p.len() > 0,
        !is_there(w, p),
        is_there(w, q),
    ensures
        !p.is_prefix_of(q),
{
    if p.is_prefix_of(q) {
        assert(q.take(p.len() as int) =~= p);
        if p.len() < q.len() {
            folders_above_are_there(w, q, p.len() as int);
        } else {
            assert(q =~= p);
        }
    }
}

/// Whether the ways to `from` and to `to`, both caller-supplied, lead to entries of the folder or to
/// places for them.
pub open spec fn are_open(sys: System, w: World, dir: Seq<char>, from: Seq<char>, to: Seq<char>) -> bool {
    &&& is_honest(sys)
    &&& is_tidy(w)
    &&& is_tree(w)
    &&& is_home(sys, w, root_of(dir))
    &&& is_open_path(w, dir, from)
    &&& is_open_path(w, dir, to)
}

/// What is known of a free target: the folders above it can be made.
proof fn room_is_made(sys: System, w: World, dir: Seq<char>, to: Seq<char>)
    requires
        is_tidy(w),
        is_home(sys, w, root_of(dir)),
        is_open_path(w, dir, to),
        target_of(dir, to).len() > root_of(dir).len(),
    ensures
        ({
            let b = target_of(dir, to);
            let made = with_folders(w, b.drop_last());
            &&& parent_of(b) == Some(b.drop_last())
            &&& !is_blocked(w, b.drop_last())
            &&& !w.files.contains_key(b.drop_last())
            &&& has_folder(made, b)
            &&& made.files == w.files
            &&& made.folders.contains(b) <==> w.folders.contains(b)
            &&& is_tidy(made)
            &&& root_of(dir).is_prefix_of(b)
        }),
{
    let root = root_of(dir);
    let b = target_of(dir, to);
    let folder = b.drop_last();
    target_is_below(dir, to);
    targets_have_good_names(dir, to);
    assert(b[b.len() - 1] is Name);
    assert(folder =~= b.take(b.len() - 1));
    shorter_is_open(w, b, b.len() - 1);
    assert(root.is_prefix_of(folder)) by {
        assert(folder.subrange(0, root.len() as int) =~= root);
    }
    folders_are_made(w, root, folder);
    made_folders_are_tidy(w, folder);
    assert(!is_on_the_way(w, folder, b));
}

/// How moving `from` to `to` ends: where something stands at `to`, in "already exists" with nothing
/// changed; where `from` is there and `to` is not in it, with all of it at `to`.
pub open spec fn move_end(
    sys: System,
    w: World,
    dir: Seq<char>,
    from: Path,
    to: Path,
    to_text: Seq<char>,
) -> Running {
    let made = with_folders(w, to.drop_last());
    if is_there(w, to) {
        ended_with(w, dir, failed("\""@ + to_text + "\" already exists"@))
    } else if from.is_prefix_of(to) && from != to {
        ended_with(made, dir, failed(sys.impossible))
    } else if !is_there(w, from) {
        ended_with(made, dir, failed(sys.missing))
    } else {
        ended_with(after_move(w, root_of(dir), from, to), dir, done(Outcome::Unit))
    }
}

/// Moving a folder, from wherever to wherever in the picked folder, ends well whenever it is there,
/// nothing stands at the target and the target is not in it: and then all that was in it is at the
/// target. It ends in "already exists" only if something stood at the target.
pub proof fn a_folder_is_moved(
    sys: System,
    w: World,
    dir: Seq<char>,
    from: Seq<char>,
    to: Seq<char>,
)
    requires
        are_open(sys, w, dir, from, to),
    ensures
        leads_to(
            sys,
            started(w, dir, from, Task::MoveFrom { to }),
            move_end(sys, w, dir, target_of(dir, from), target_of(dir, to), to),
        ),
{
    let root = root_of(dir);
    let a = target_of(dir, from);
    let b = target_of(dir, to);
    let task = Task::MoveTo { from: a, to };
    let end = move_end(sys, w, dir, a, b, to);
    let s0 = ended_with(w, dir, resolved(dir, task, b));
    target_is_below(dir, from);
    target_is_below(dir, to);
    messages_read(to, Seq::empty(), Seq::empty());
    if is_there(w, b) {
        assert(stepped(sys, s0) == end);
        leads_a_step(sys, s0);
    } else {
        assert(b.len() > root.len()) by {
            if b.len() == root.len() {
                assert(b.take(root.len() as int) =~= b);
            }
        }
        room_is_made(sys, w, dir, to);
        let folder = b.drop_last();
        let made = with_folders(w, folder);
        let s1 = ended_with(
            w,
            dir,
            Phase::MakeFolder { folder, then_do: AfterFolder::Move { from: a, to: b } },
        );
        let s2 = ended_with(made, dir, Phase::Move { from: a, to: b });
        assert(stepped(sys, s0) == s1);
        assert(stepped(sys, s1) == s2);
        assert(is_there(made, a) <==> is_there(w, a) || (a.is_prefix_of(b) && a != b)) by {
            the_way_is_made(w, root, a, b);
        }
        assert(!is_blocked(made, a)) by {
            if is_blocked(made, a) {
                let j = choose|j: int|
                    0 <= j < a.len() && made.files.contains_key(#[trigger] a.take(j));
                assert(w.files.contains_key(a.take(j)));
            }
        }
        if a.is_prefix_of(b) && a != b {
            assert(!w.files.contains_key(a)) by {
                assert(b.take(a.len() as int) =~= a);
                assert(a.len() < b.len()) by {
                    if a.len() == b.len() {
                        assert(a =~= b);
                    }
                }
            }
            assert(!can_move(made, a, b));
            assert(stepped(sys, s2) == end);
            leads_a_step(sys, s2);
        } else if !is_there(w, a) {
            assert(stepped(sys, s2) == end);
            leads_a_step(sys, s2);
        } else {
            assert(!a.is_prefix_of(b));
            assert(a.len() > root.len()) by {
                if a.len() == root.len() {
                    assert(a.take(root.len() as int) =~= a);
                }
            }
            assert(can_move(made, a, b));
            let there = moved(made, a, b);
            targets_have_good_names(dir, to);
            moved_is_tidy(made, a, b);
            let s3 = ended_with(there, dir, prune_after(dir, a, None));
            assert(stepped(sys, s2) == s3);
            pruning_follows(sys, there, dir, a, None);
            leads_by_a_step(sys, s2, end);
        }
        leads_by_a_step(sys, s1, end);
        leads_by_a_step(sys, s0, end);
    }
    goes_on_from_there(sys, w, dir, to, task, end);
    assert(ended_with(w, dir, resolved(dir, Task::MoveFrom { to }, a)) == started(w, dir, to, task));
    goes_on_from_there(sys, w, dir, from, Task::MoveFrom { to }, end);
}

/// Moving a folder that is there to a place where nothing stands, and that is not in it, ends well and
/// in no other way, at whatever depth both lie; every file that was in the folder is then at the same
/// place in the target, and no longer at the old place.
pub proof fn a_move_to_a_free_place_succeeds(
    sys: System,
    w: World,
    dir: Seq<char>,
    from: Seq<char>,
    to: Seq<char>,
    rest: Path,
    u: World,
    message: Seq<char>,
) -> (v: World)
    requires
        are_open(sys, w, dir, from, to),
        w.folders.contains(target_of(dir, from)),
        !is_there(w, target_of(dir, to)),
        !target_of(dir, from).is_prefix_of(target_of(dir, to)),
    ensures
        ({
            let a = target_of(dir, from);
            let b = target_of(dir, to);
            let start = started(w, dir, from, Task::MoveFrom { to });
            &&& leads_to(sys, start, ended_with(v, dir, done(Outcome::Unit)))
            &&& !leads_to(sys, start, ended_with(u, dir, failed(message)))
            &&& v.files.contains_key(b + rest) <==> w.files.contains_key(a + rest)
            &&& w.files.contains_key(a + rest) ==> v.files[b + rest] == w.files[a + rest]
            &&& !v.files.contains_key(a + rest)
        }),
{
    let root = root_of(dir);
    let a = target_of(dir, from);
    let b = target_of(dir, to);
    let start = started(w, dir, from, Task::MoveFrom { to });
    let v = after_move(w, root, a, b);
    a_folder_is_moved(sys, w, dir, from, to);
    target_is_below(dir, to);
    assert(b.len() > root.len()) by {
        if b.len() == root.len() {
            assert(b.take(root.len() as int) =~= b);
        }
    }
    nothing_is_below_what_is_missing(w, b, a);
    assert(a != b);
    let other = Path::empty();
    assert(!a.is_prefix_of(other) && !b.is_prefix_of(other)) by {
        target_is_below(dir, from);
        if a.len() == 0 {
            assert(b.subrange(0, 0) =~= a);
        }
    }
    a_move_carries_everything_along(w, root, a, b, rest, other);
    let good = ended_with(v, dir, done(Outcome::Unit));
    let bad = ended_with(u, dir, failed(message));
    if leads_to(sys, start, bad) {
        a_command_has_one_end(sys, start, good, bad);
    }
    v
}

/// Renaming a file that is there to a name that nothing has ends well and in no other way, at
/// whatever depth both lie: the file is then at the new name, with its bytes, and no longer at the old
/// one, and the time that is given back is its own.
pub proof fn a_rename_to_a_free_name_succeeds(
    sys: System,
    w: World,
    dir: Seq<char>,
    from: Seq<char>,
    to: Seq<char>,
    u: World,
    message: Seq<char>,
) -> (v: World)
    requires
        are_open(sys, w, dir, from, to),
        w.files.contains_key(target_of(dir, from)),
        !is_there(w, target_of(dir, to)),
    ensures
        ({
            let a = target_of(dir, from);
            let b = target_of(dir, to);
            let start = started(w, dir, from, Task::RenameFrom { to });
            let file = w.files[a];
            &&& file.modified matches Some(ms) ==> leads_to(
                sys,
                start,
                ended_with(v, dir, done(Outcome::Stamp(ms))),
            )
            &&& !leads_to(sys, start, ended_with(u, dir, failed(message)))
            &&& v.files.contains_key(b) && v.files[b] == file
            &&& !v.files.contains_key(a)
        }),
{
    let root = root_of(dir);
    let a = target_of(dir, from);
    let b = target_of(dir, to);
    let start = started(w, dir, from, Task::RenameFrom { to });
    let v = after_move(w, root, a, b);
    target_is_below(dir, to);
    assert(b.len() > root.len()) by {
        if b.len() == root.len() {
            assert(b.take(root.len() as int) =~= b);
        }
    }
    an_entry_is_renamed(sys, w, dir, from, to);
    assert(a != b);
    assert(!a.is_prefix_of(b)) by {
        if a.is_prefix_of(b) {
            assert(b.take(a.len() as int) =~= a);
            assert(a.len() < b.len()) by {
                if a.len() == b.len() {
                    assert(b.subrange(0, a.len() as int) =~= b);
                }
            }
            assert(w.files.contains_key(b.take(a.len() as int)));
            assert(is_blocked(w, b));
        }
    }
    let other = b.push(Part::Up);
    assert(other.len() == b.len() + 1);
    if other == a {
        assert(a.drop_last() =~= b);
        nothing_is_below_what_is_missing(w, b, a);
        assert(a.subrange(0, b.len() as int) =~= b);
    }
    a_renamed_file_stays_the_same(w, root, a, b, other);
    let good = ended_with(
        v,
        dir,
        done(Outcome::Stamp(last_change(sys, w, a)->Some_0)),
    );
    let bad = ended_with(u, dir, failed(message));
    if leads_to(sys, start, bad) {
        a_command_has_one_end(sys, start, good, bad);
    }
    v
}

proof fn the_way_is_made(w: World, root: Path, a: Path, b: Path)
    requires
        w.folders.contains(root),
        root.is_prefix_of(a),
        b.len() > 0,
        !is_there(w, b),
    ensures
        is_there(with_folders(w, b.drop_last()), a) <==> is_there(w, a) || (a.is_prefix_of(b) && a
            != b),
{
    let folder = b.drop_last();
    let made = with_folders(w, folder);
    if a.is_prefix_of(b) && a != b {
        assert(a.len() < b.len()) by {
            if a.len() == b.len() {
                assert(b.subrange(0, a.len() as int) =~= b);
            }
        }
        assert(folder.subrange(0, a.len() as int) =~= b.subrange(0, a.len() as int));
        assert(is_on_the_way(w, folder, a));
    }
    if is_on_the_way(w, folder, a) {
        assert(folder.subrange(0, a.len() as int) =~= b.subrange(0, a.len() as int));
        assert(a != b);
    }
}

/// How renaming `from` to `to` ends: where another file stands at `to`, in "already exists" with
/// nothing changed; otherwise, where `from` is there, with its content at `to`, and with its last
/// change.
pub open spec fn rename_end(
    sys: System,
    w: World,
    dir: Seq<char>,
    from: Path,
    to: Path,
    to_text: Seq<char>,
) -> Running {
    let made = with_folders(w, to.drop_last());
    if is_there(w, to) && !(is_there(w, from) && (sys.real_of)(from) == (sys.real_of)(to)) {
        ended_with(w, dir, failed("\""@ + to_text + "\" already exists"@))
    } else if from == to && is_there(w, to) {
        ended_with(made, dir, done(Outcome::Stamp(last_change(sys, w, to)->Some_0)))
    } else if from.is_prefix_of(to) && from != to {
        ended_with(made, dir, failed(sys.impossible))
    } else if !is_there(w, from) {
        ended_with(made, dir, failed(sys.missing))
    } else {
        ended_with(
            after_move(w, root_of(dir), from, to),
            dir,
            done(Outcome::Stamp(last_change(sys, w, from)->Some_0)),
        )
    }
}

/// Renaming an entry, from wherever to wherever in the picked folder, ends well whenever it is there
/// and nothing else stands at the new name, also where the new name is the old one; and it ends in
/// "already exists" only if something stood there that is really another.
pub proof fn an_entry_is_renamed(
    sys: System,
    w: World,
    dir: Seq<char>,
    from: Seq<char>,
    to: Seq<char>,
)
    requires
        are_open(sys, w, dir, from, to),
        target_of(dir, to).len() > root_of(dir).len(),
        is_there(w, target_of(dir, from)) && is_there(w, target_of(dir, to)) && (sys.real_of)(
            target_of(dir, from),
        ) == (sys.real_of)(target_of(dir, to)) ==> target_of(dir, from) == target_of(dir, to),
    ensures
        leads_to(
            sys,
            started(w, dir, from, Task::RenameFrom { to }),
            rename_end(sys, w, dir, target_of(dir, from), target_of(dir, to), to),
        ),
{
    let a = target_of(dir, from);
    let b = target_of(dir, to);
    let task = Task::RenameTo { from: a, to };
    let end = rename_end(sys, w, dir, a, b, to);
    if !is_there(w, b) {
        a_free_rename(sys, w, dir, from, to);
    } else if a == b {
        a_rename_to_itself(sys, w, dir, from, to);
    } else {
        a_taken_rename(sys, w, dir, a, b, to);
    }
    goes_on_from_there(sys, w, dir, to, task, end);
    assert(ended_with(w, dir, resolved(dir, Task::RenameFrom { to }, a)) == started(
        w,
        dir,
        to,
        task,
    ));
    goes_on_from_there(sys, w, dir, from, Task::RenameFrom { to }, end);
}

proof fn a_taken_rename(sys: System, w: World, dir: Seq<char>, a: Path, b: Path, to: Seq<char>)
    requires
        is_there(w, b),
        !(is_there(w, a) && (sys.real_of)(a) == (sys.real_of)(b)),
    ensures
        leads_to(
            sys,
            ended_with(w, dir, resolved(dir, Task::RenameTo { from: a, to }, b)),
            rename_end(sys, w, dir, a, b, to),
        ),
{
    let end = rename_end(sys, w, dir, a, b, to);
    let s0 = ended_with(w, dir, resolved(dir, Task::RenameTo { from: a, to }, b));
    messages_read(to, Seq::empty(), Seq::empty());
    let s1 = ended_with(w, dir, Phase::SameFrom { from: a, target: b, to });
    assert(stepped(sys, s0) == s1);
    let real_a = if is_there(w, a) {
        Some((sys.real_of)(a))
    } else {
        None
    };
    let s2 = ended_with(w, dir, Phase::SameTo { from: a, target: b, to, canon_from: real_a });
    assert(stepped(sys, s1) == s2);
    assert(stepped(sys, s2) == end);
    leads_a_step(sys, s2);
    leads_by_a_step(sys, s1, end);
    leads_by_a_step(sys, s0, end);
}

proof fn a_rename_to_itself(sys: System, w: World, dir: Seq<char>, from: Seq<char>, to: Seq<char>)
    requires
        are_open(sys, w, dir, from, to),
        target_of(dir, to).len() > root_of(dir).len(),
        target_of(dir, from) == target_of(dir, to),
        is_there(w, target_of(dir, to)),
    ensures
        leads_to(
            sys,
            ended_with(
                w,
                dir,
                resolved(
                    dir,
                    Task::RenameTo { from: target_of(dir, from), to },
                    target_of(dir, to),
                ),
            ),
            rename_end(sys, w, dir, target_of(dir, from), target_of(dir, to), to),
        ),
{
    let root = root_of(dir);
    let b = target_of(dir, to);
    let end = rename_end(sys, w, dir, b, b, to);
    let folder = b.drop_last();
    let made = with_folders(w, folder);
    target_is_below(dir, to);
    room_is_made(sys, w, dir, to);
    let s0 = ended_with(w, dir, resolved(dir, Task::RenameTo { from: b, to }, b));
    let s1 = ended_with(w, dir, Phase::SameFrom { from: b, target: b, to });
    let s2 = ended_with(
        w,
        dir,
        Phase::SameTo { from: b, target: b, to, canon_from: Some((sys.real_of)(b)) },
    );
    let s3 = ended_with(
        w,
        dir,
        Phase::MakeFolder { folder, then_do: AfterFolder::Rename { from: b, to: b, same: true } },
    );
    let at = Moving::Rename { from: b, to: b, may_copy: false };
    let s4 = ended_with(made, dir, Phase::Rename { at, from: b, to: b });
    let s5 = ended_with(made, dir, prune_after(dir, b, Some(b)));
    let s6 = ended_with(made, dir, pruned(Some(b)));
    assert(stepped(sys, s0) == s1);
    assert(stepped(sys, s1) == s2);
    assert(stepped(sys, s2) == s3);
    assert(stepped(sys, s3) == s4);
    assert(can_move(made, b, b));
    assert(moved(made, b, b) == made);
    assert(stepped(sys, s4) == s5);
    pruning_follows(sys, made, dir, b, Some(b));
    assert(emptied(made, root, folder) == made) by {
        if let Part::Name(name) = b[b.len() - 1] {
            assert(folder.push(Part::Name(name)) =~= b);
            assert(is_child(made, folder, name));
        }
    }
    assert(stepped(sys, s6) == end);
    leads_a_step(sys, s6);
    leads_on(sys, s5, s6, end);
    leads_by_a_step(sys, s4, end);
    leads_by_a_step(sys, s3, end);
    leads_by_a_step(sys, s2, end);
    leads_by_a_step(sys, s1, end);
    leads_by_a_step(sys, s0, end);
}

proof fn a_free_rename(sys: System, w: World, dir: Seq<char>, from: Seq<char>, to: Seq<char>)
    requires
        are_open(sys, w, dir, from, to),
        target_of(dir, to).len() > root_of(dir).len(),
        !is_there(w, target_of(dir, to)),
    ensures
        leads_to(
            sys,
            ended_with(
                w,
                dir,
                resolved(
                    dir,
                    Task::RenameTo { from: target_of(dir, from), to },
                    target_of(dir, to),
                ),
            ),
            rename_end(sys, w, dir, target_of(dir, from), target_of(dir, to), to),
        ),
{
    let root = root_of(dir);
    let a = target_of(dir, from);
    let b = target_of(dir, to);
    let end = rename_end(sys, w, dir, a, b, to);
    let s0 = ended_with(w, dir, resolved(dir, Task::RenameTo { from: a, to }, b));
    target_is_below(dir, from);
    target_is_below(dir, to);
    room_is_made(sys, w, dir, to);
    let folder = b.drop_last();
    let made = with_folders(w, folder);
    let s1 = ended_with(
        w,
        dir,
        Phase::MakeFolder {
            folder,
            then_do: AfterFolder::Rename { from: a, to: b, same: false },
        },
    );
    let at = Moving::Rename { from: a, to: b, may_copy: true };
    let s2 = ended_with(made, dir, Phase::Rename { at, from: a, to: b });
    assert(stepped(sys, s0) == s1);
    assert(stepped(sys, s1) == s2);
    the_way_is_made(w, root, a, b);
    assert(!is_blocked(made, a)) by {
        if is_blocked(made, a) {
            let j = choose|j: int| 0 <= j < a.len() && made.files.contains_key(#[trigger] a.take(j));
            assert(w.files.contains_key(a.take(j)));
        }
    }
    if (a.is_prefix_of(b) && a != b) || !is_there(w, a) {
        let strict = a.is_prefix_of(b) && a != b;
        if strict {
            assert(!w.files.contains_key(a)) by {
                assert(b.take(a.len() as int) =~= a);
                assert(a.len() < b.len()) by {
                    if a.len() == b.len() {
                        assert(a =~= b);
                    }
                }
            }
        }
        assert(!can_move(made, a, b));
        let fault = if strict {
            refusal_of(sys)
        } else {
            IoFault { not_found: true, text: sys.missing }
        };
        let s3 = ended_with(
            made,
            dir,
            Phase::Rename { at: Moving::Copy { from: a, to: b, fault }, from: a, to: b },
        );
        assert(stepped(sys, s2) == s3);
        assert(!made.files.contains_key(a));
        assert(stepped(sys, s3) == end);
        leads_a_step(sys, s3);
    } else {
        assert(!a.is_prefix_of(b));
        assert(a.len() > root.len()) by {
            if a.len() == root.len() {
                assert(a.take(root.len() as int) =~= a);
            }
        }
        assert(can_move(made, a, b));
        let there = moved(made, a, b);
        targets_have_good_names(dir, to);
        moved_is_tidy(made, a, b);
        let s3 = ended_with(there, dir, prune_after(dir, a, Some(b)));
        assert(stepped(sys, s2) == s3);
        pruning_follows(sys, there, dir, a, Some(b));
        let last = after_move(w, root, a, b);
        let s4 = ended_with(last, dir, pruned(Some(b)));
        nothing_is_below_what_is_missing(w, b, a);
        pruning_takes_only_empty_folders(there, root, a.drop_last(), b);
        assert(!b.is_prefix_of(a.drop_last())) by {
            if b.is_prefix_of(a.drop_last()) {
                assert(a.subrange(0, b.len() as int) =~= a.drop_last().subrange(
                    0,
                    b.len() as int,
                ));
            }
        }
        assert(was_at(a, b, b) =~= a);
        assert(b.is_prefix_of(b)) by {
            assert(b.subrange(0, b.len() as int) =~= b);
        }
        assert(stepped(sys, s4) == end);
        leads_a_step(sys, s4);
        leads_on(sys, s3, s4, end);
    }
    leads_by_a_step(sys, s2, end);
    leads_by_a_step(sys, s1, end);
    leads_by_a_step(sys, s0, end);
}

/// Whether the folder holds nothing but its marker, if that.
pub open spec fn holds_only_a_marker(w: World, folder: Path) -> bool {
    forall|name: Seq<u8>| #[trigger] is_child(w, folder, name) ==> name == utf8(".gnkeep"@)
}

/// How removing the folder `p` ends: it goes, with its marker, where it holds nothing else; one that
/// holds anything else stays as it is, and one that is missing needs no removal.
pub open spec fn folder_removal_end(
    sys: System,
    w: World,
    dir: Seq<char>,
    p: Path,
    text: Seq<char>,
) -> Running {
    let marker = p.push(Part::Name(utf8(".gnkeep"@)));
    if w.folders.contains(p) {
        if !holds_only_a_marker(w, p) {
            ended_with(w, dir, failed("\""@ + text + "\" is not empty"@))
        } else if w.folders.contains(marker) {
            ended_with(w, dir, failed(sys.impossible))
        } else {
            ended_with(without_folder(without_file(w, marker), p), dir, done(Outcome::Unit))
        }
    } else if w.files.contains_key(p) {
        ended_with(w, dir, failed(sys.impossible))
    } else {
        ended_with(w, dir, done(Outcome::Unit))
    }
}

proof fn what_is_in_the_way_is_told(path: Seq<char>, list: Listing)
    requires
        forall|i: int| 0 <= i < list.len() ==> #[trigger] list[i] is Ok,
    ensures
        removable(path, list) matches Err(message) ==> message == not_empty(path),
    decreases list.len(),
{
    if list.len() > 0 {
        let visit = |entry: Result<Entry, Fault>| removal_visit(path, entry);
        let visits = list.map_values(visit);
        let before = list.drop_last();
        assert forall|i: int| 0 <= i < before.len() implies #[trigger] before[i] is Ok by {
            assert(before[i] == list[i]);
        }
        what_is_in_the_way_is_told(path, before);
        assert(before.map_values(visit) =~= visits.drop_last());
        assert(visits.last() == removal_visit(path, list[list.len() - 1]));
    }
}

/// A folder is removed exactly if it holds nothing but its marker.
pub proof fn an_empty_folder_is_removed(sys: System, w: World, dir: Seq<char>, path: Seq<char>)
    requires
        is_honest(sys),
        is_tidy(w),
        is_home(sys, w, root_of(dir)),
        is_open_path(w, dir, path),
    ensures
        leads_to(
            sys,
            started(w, dir, path, Task::RemoveFolder { path }),
            folder_removal_end(sys, w, dir, target_of(dir, path), path),
        ),
{
    let p = target_of(dir, path);
    let task = Task::RemoveFolder { path };
    let end = folder_removal_end(sys, w, dir, p, path);
    let marker = p.push(Part::Name(utf8(".gnkeep"@)));
    let s0 = ended_with(w, dir, resolved(dir, task, p));
    messages_read(path, Seq::empty(), Seq::empty());
    if w.folders.contains(p) {
        let list = (sys.lists)(w, p);
        assert(is_true_listing(sys, w, p, list));
        only_a_marked_folder_is_removable(path, list);
        assert forall|i: int| 0 <= i < list.len() implies #[trigger] list[i] is Ok by {}
        what_is_in_the_way_is_told(path, list);
        assert(removable(path, list) is Ok <==> holds_only_a_marker(w, p)) by {
            if holds_only_a_marker(w, p) {
                assert forall|i: int| 0 <= i < list.len() implies (#[trigger] list[i] matches Ok(e)
                    && e.name == utf8(FOLDER_MARKER@)) by {
                    if let Ok(e) = list[i] {
                        assert(is_true_entry(sys, w, p, e));
                        assert(is_child(w, p, e.name));
                    }
                }
            }
            if removable(path, list) is Ok {
                assert forall|name: Seq<u8>| #[trigger] is_child(w, p, name) implies name == utf8(
                    ".gnkeep"@,
                ) by {
                    assert(lists_name(list, name));
                }
            }
        }
        if holds_only_a_marker(w, p) {
            let w1 = without_file(w, marker);
            let s1 = ended_with(w, dir, Phase::DropMarker { folder: p });
            let s2 = ended_with(w1, dir, Phase::DropFolder { folder: p });
            assert(stepped(sys, s0) == s1);
            assert(stepped(sys, s1) == s2);
            if w.folders.contains(marker) {
                assert(!w.files.contains_key(marker));
                assert(w1 =~= w);
                assert(is_child(w, p, utf8(".gnkeep"@)));
                assert(!is_empty_folder(w, p));
            } else {
                assert forall|name: Seq<u8>| !#[trigger] is_child(w1, p, name) by {
                    if is_child(w1, p, name) {
                        assert(is_child(w, p, name));
                    }
                }
                assert(is_empty_folder(w1, p));
            }
            assert(stepped(sys, s2) == end);
            leads_a_step(sys, s2);
            leads_by_a_step(sys, s1, end);
            leads_by_a_step(sys, s0, end);
        } else {
            assert(stepped(sys, s0) == end);
            leads_a_step(sys, s0);
        }
    } else {
        assert(stepped(sys, s0) == end);
        leads_a_step(sys, s0);
    }
    goes_on_from_there(sys, w, dir, path, task, end);
}

/// How removing `p` with all that is in it ends.
pub open spec fn tree_removal_end(sys: System, w: World, dir: Seq<char>, p: Path) -> Running {
    if w.folders.contains(p) {
        ended_with(without_all(w, p), dir, done(Outcome::Unit))
    } else if w.files.contains_key(p) {
        ended_with(w, dir, failed(sys.impossible))
    } else {
        ended_with(w, dir, done(Outcome::Unit))
    }
}

proof fn a_tree_goes_by_its_side(
    sys: System,
    w: World,
    dir: Seq<char>,
    p: Path,
    number: u32,
    free: u32,
)
    requires
        is_tidy(w),
        is_tree(w),
        w.folders.contains(p),
        has_folder(w, p),
        !is_blocked(w, p),
        p.last() is Name,
        number <= free,
        !is_there(w, aside_of(p, free)),
    ensures
        leads_to(
            sys,
            ended_with(w, dir, Phase::PickAside { target: p, number }),
            ended_with(without_all(w, p), dir, done(Outcome::Unit)),
        ),
    decreases free - number,
{
    let aside = aside_of(p, number);
    aside_is_beside_the_folder(p, number);
    assert(parent_of(p) == Some(p.drop_last()));
    assert(aside.drop_last() =~= p.drop_last());
    assert(aside.len() == p.len());
    let s0 = ended_with(w, dir, Phase::PickAside { target: p, number });
    let end = ended_with(without_all(w, p), dir, done(Outcome::Unit));
    if is_there(w, aside) {
        assert(number < free);
        let s1 = ended_with(w, dir, Phase::PickAside { target: p, number: (number + 1) as u32 });
        assert(stepped(sys, s0) == s1);
        a_tree_goes_by_its_side(sys, w, dir, p, (number + 1) as u32, free);
        leads_by_a_step(sys, s0, end);
    } else {
        assert(!is_blocked(w, aside)) by {
            if is_blocked(w, aside) {
                let j = choose|j: int|
                    0 <= j < aside.len() && w.files.contains_key(#[trigger] aside.take(j));
                assert(aside.take(j) =~= aside.drop_last().take(j));
                assert(p.take(j) =~= p.drop_last().take(j));
            }
        }
        assert(!p.is_prefix_of(aside)) by {
            if p.is_prefix_of(aside) {
                assert(aside.subrange(0, p.len() as int) =~= aside);
            }
        }
        let gone = moved(w, p, aside);
        let s1 = ended_with(w, dir, Phase::SetAside { target: p, number });
        let s2 = ended_with(gone, dir, Phase::DropAside { target: p, number });
        assert(stepped(sys, s0) == s1);
        assert(can_move(w, p, aside));
        assert(stepped(sys, s1) == s2);
        assert(aside.is_prefix_of(aside)) by {
            assert(aside.subrange(0, aside.len() as int) =~= aside);
        }
        assert(was_at(p, aside, aside) =~= p);
        assert(without_all(gone, aside) =~= without_all(w, p)) by {
            assert forall|q: Path| is_there(w, q) implies !#[trigger] aside.is_prefix_of(q) by {
                nothing_is_below_what_is_missing(w, aside, q);
            }
            assert(without_all(gone, aside).files =~= without_all(w, p).files) by {
                assert forall|q: Path| #[trigger]
                    without_all(gone, aside).files.contains_key(q) <==> without_all(
                    w,
                    p,
                ).files.contains_key(q) by {
                    if w.files.contains_key(q) {
                        assert(is_there(w, q));
                        assert(!aside.is_prefix_of(q));
                    }
                }
            }
            assert(without_all(gone, aside).folders =~= without_all(w, p).folders) by {
                assert forall|q: Path| #[trigger]
                    without_all(gone, aside).folders.contains(q) <==> without_all(
                    w,
                    p,
                ).folders.contains(q) by {
                    if w.folders.contains(q) {
                        assert(is_there(w, q));
                        assert(!aside.is_prefix_of(q));
                    }
                }
            }
        }
        assert(stepped(sys, s2) == end);
        leads_a_step(sys, s2);
        leads_by_a_step(sys, s1, end);
        leads_by_a_step(sys, s0, end);
    }
}

/// Removing a folder with all that is in it, wherever it lies, leaves nothing of it, and everything
/// else as it was; what is missing needs no removal.
pub proof fn a_tree_is_removed(
    sys: System,
    w: World,
    dir: Seq<char>,
    path: Seq<char>,
    free: u32,
)
    requires
        is_tidy(w),
        is_tree(w),
        is_home(sys, w, root_of(dir)),
        is_open_path(w, dir, path),
        !is_there(w, aside_of(target_of(dir, path), free)),
    ensures
        leads_to(
            sys,
            started(w, dir, path, Task::RemoveTree),
            tree_removal_end(sys, w, dir, target_of(dir, path)),
        ),
{
    let root = root_of(dir);
    let p = target_of(dir, path);
    let end = tree_removal_end(sys, w, dir, p);
    let s0 = ended_with(w, dir, resolved(dir, Task::RemoveTree, p));
    target_is_below(dir, path);
    if p.len() > root.len() {
        if w.folders.contains(p) {
            let s1 = ended_with(w, dir, Phase::ReadFlat { folder: p, what: Flat::Tree });
            let s2 = ended_with(w, dir, Phase::PickAside { target: p, number: 0 });
            assert(stepped(sys, s0) == s1);
            assert(stepped(sys, s1) == s2);
            assert(p[p.len() - 1] is Name);
            assert(has_folder(w, p)) by {
                if p.len() > 1 {
                    assert(is_there(w, p));
                } else {
                    assert(p.drop_last() =~= root);
                }
            }
            a_tree_goes_by_its_side(sys, w, dir, p, 0, free);
            leads_by_a_step(sys, s1, end);
            leads_by_a_step(sys, s0, end);
        } else if w.files.contains_key(p) {
            let s1 = ended_with(w, dir, Phase::ReadFlat { folder: p, what: Flat::Tree });
            assert(stepped(sys, s0) == s1);
            assert(stepped(sys, s1) == end);
            leads_a_step(sys, s1);
            leads_by_a_step(sys, s0, end);
        } else {
            assert(stepped(sys, s0) == end);
            leads_a_step(sys, s0);
        }
    } else {
        assert(p.take(root.len() as int) =~= p);
        assert(stepped(sys, s0) == end);
        leads_a_step(sys, s0);
    }
    goes_on_from_there(sys, w, dir, path, Task::RemoveTree, end);
}

} // verus!
