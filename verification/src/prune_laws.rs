//! Which folders a prune removes, said of a whole run.

use vstd::prelude::*;

use crate::fsio::{modified_of, Entry, Fault, FileMeta, IoFault, Listing, Reply};
use crate::job::{
    done, job_next, prune_after, pruned, resolved, root_of, JobView, Outcome, Phase, Task,
};
use crate::job_laws::{is_strictly_below, reached};
use crate::path::{parent_of, Part, Path};
use crate::prune::{
    holds_nothing, prune_next, prune_reaches, pruning, Pruning, PruningView,
};

verus! {

/// What each folder held when the prune began.
pub type Contents = spec_fn(Path) -> Result<Listing, Fault>;

/// Whether this is the entry for the part `part` of a path.
pub open spec fn is_entry(entry: Result<Entry, Fault>, part: Part<Seq<u8>>) -> bool {
    entry matches Ok(e) && Part::Name(e.name) == part
}

/// Whether the folder `dir`, on the way from the root to `start`, held nothing but the next folder
/// on that way; `start` itself held nothing at all.
pub open spec fn holds_only_the_way(contents: Contents, start: Path, dir: Path) -> bool {
    contents(dir) matches Ok(list) && is_only_the_way(list, start, dir)
}

/// Whether the entry stays when the folders on the way to `start` are gone up to `dir`.
pub open spec fn stays(start: Path, dir: Path, entry: Result<Entry, Fault>) -> bool {
    !(dir.len() < start.len() && is_entry(entry, start[dir.len() as int]))
}

/// Whether all entries are the next folder on the way to `start`.
pub open spec fn is_only_the_way(list: Listing, start: Path, dir: Path) -> bool {
    forall|i: int| 0 <= i < list.len() ==> !stays(start, dir, #[trigger] list[i])
}

/// What is left in `dir` once the next folder on the way to `start` is gone.
pub open spec fn left_in(contents: Contents, start: Path, dir: Path) -> Result<Listing, Fault> {
    match contents(dir) {
        Ok(list) => Ok(list.filter(|entry: Result<Entry, Fault>| stays(start, dir, entry))),
        Err(fault) => Err(fault),
    }
}

/// What a disk answers a prune that began at `start`: what is left in a folder, and that it is
/// removed exactly if nothing is.
pub open spec fn prune_answer(contents: Contents, start: Path, p: PruningView) -> Reply {
    if !p.empty {
        Reply::Entries(left_in(contents, start, p.dir))
    } else if left_in(contents, start, p.dir) matches Ok(list) && list.len() == 0 {
        Reply::Done(Ok(()))
    } else {
        Reply::Done(Err(IoFault { not_found: false, text: Seq::empty() }))
    }
}

/// The answers to a prune from where it has come to until it ends.
pub open spec fn prune_answers(contents: Contents, start: Path, p: PruningView) -> Seq<Reply>
    decreases
            p.dir.len(),
            if p.empty {
                0nat
            } else {
                1nat
            },
{
    let answer = prune_answer(contents, start, p);
    match prune_next(p, answer) {
        Some(next) => seq![answer] + prune_answers(contents, start, next),
        None => seq![answer],
    }
}

/// The folders that a prune removes from where it has come to until it ends.
pub open spec fn removed_by(contents: Contents, start: Path, p: PruningView) -> Set<Path>
    decreases
            p.dir.len(),
            if p.empty {
                0nat
            } else {
                1nat
            },
{
    let answer = prune_answer(contents, start, p);
    let here = if p.empty && answer == Reply::Done(Ok(())) {
        set![p.dir]
    } else {
        Set::empty()
    };
    match prune_next(p, answer) {
        Some(next) => here.union(removed_by(contents, start, next)),
        None => here,
    }
}

/// Whether the first `j` parts of `start` lead to a folder below `root` that is left empty: it and
/// all folders from it down to `start` held nothing else.
pub open spec fn is_left_empty(
    contents: Contents,
    root: Path,
    start: Path,
    j: int,
    top: int,
) -> bool {
    root.len() < j <= top && forall|i: int|
        j <= i <= top ==> holds_only_the_way(contents, start, #[trigger] start.take(i))
}

proof fn left_is_empty(contents: Contents, start: Path, dir: Path)
    ensures
        holds_only_the_way(contents, start, dir) <==> (left_in(contents, start, dir) matches Ok(
            list,
        ) && list.len() == 0),
{
    if let Ok(list) = contents(dir) {
        let pred = |entry: Result<Entry, Fault>| stays(start, dir, entry);
        let left = list.filter(pred);
        if is_only_the_way(list, start, dir) && left.len() > 0 {
            list.lemma_filter_contains_rev(pred, left[0]);
            list.lemma_filter_pred(pred, 0);
            let i = choose|i: int| 0 <= i < list.len() && list[i] == left[0];
            assert(!stays(start, dir, list[i]));
        }
        if left.len() == 0 && !is_only_the_way(list, start, dir) {
            let i = choose|i: int| 0 <= i < list.len() && stays(start, dir, #[trigger] list[i]);
            assert(pred(list[i]));
            list.lemma_filter_contains(pred, i);
        }
    }
}

proof fn removed_from(contents: Contents, root: Path, start: Path, k: int)
    requires
        root.len() < k <= start.len(),
        root == start.take(root.len() as int),
        forall|i: int| root.len() <= i < start.len() ==> #[trigger] start[i] is Name,
    ensures
        forall|d: Path| #[trigger]
            removed_by(
                contents,
                start,
                Pruning { root, dir: start.take(k), empty: false },
            ).contains(d) <==> exists|j: int|
                is_left_empty(contents, root, start, j, k) && d == #[trigger] start.take(j),
    decreases k,
{
    let dir = start.take(k);
    let p = Pruning { root, dir, empty: false };
    let full = Pruning { root, dir, empty: true };
    let all = removed_by(contents, start, p);
    left_is_empty(contents, start, dir);
    let first = prune_answer(contents, start, p);
    let second = prune_answer(contents, start, full);
    assert(dir.last() == start[k - 1]);
    assert(dir.drop_last() =~= start.take(k - 1));
    if holds_only_the_way(contents, start, dir) {
        assert(holds_nothing(left_in(contents, start, dir)));
        assert(prune_next(p, first) == Some(full));
        assert(all =~= removed_by(contents, start, full));
        assert(second == Reply::Done(Ok(())));
        if k - 1 > root.len() {
            let up = Pruning { root, dir: start.take(k - 1), empty: false };
            assert(start.take(k - 1).subrange(0, root.len() as int) =~= root);
            assert(start.take(k - 1) != root);
            assert(prune_next(full, second) == Some(up));
            removed_from(contents, root, start, k - 1);
            let above = removed_by(contents, start, up);
            assert(removed_by(contents, start, full) == set![dir].union(above));
            assert forall|d: Path| #[trigger] all.contains(d) <==> exists|j: int|
                is_left_empty(contents, root, start, j, k) && d == #[trigger] start.take(j) by {
                if d == dir {
                    assert(is_left_empty(contents, root, start, k, k));
                }
                if above.contains(d) {
                    let j = choose|j: int|
                        is_left_empty(contents, root, start, j, k - 1) && d
                            == #[trigger] start.take(j);
                    assert forall|i: int| j <= i <= k implies holds_only_the_way(
                        contents,
                        start,
                        #[trigger] start.take(i),
                    ) by {}
                    assert(is_left_empty(contents, root, start, j, k));
                }
                if exists|j: int|
                    is_left_empty(contents, root, start, j, k) && d == #[trigger] start.take(j) {
                    let j = choose|j: int|
                        is_left_empty(contents, root, start, j, k) && d == #[trigger] start.take(j);
                    if j < k {
                        assert(is_left_empty(contents, root, start, j, k - 1));
                        assert(above.contains(d));
                    }
                }
            }
        } else {
            assert(start.take(k - 1) == root);
            assert(!prune_reaches(root, root));
            assert(prune_next(full, second) is None);
            assert(removed_by(contents, start, full) == set![dir]);
            assert forall|d: Path| #[trigger] all.contains(d) <==> exists|j: int|
                is_left_empty(contents, root, start, j, k) && d == #[trigger] start.take(j) by {
                if d == dir {
                    assert(is_left_empty(contents, root, start, k, k));
                }
            }
        }
    } else {
        assert forall|j: int| !is_left_empty(contents, root, start, j, k) by {
            if is_left_empty(contents, root, start, j, k) {
                assert(holds_only_the_way(contents, start, start.take(k)));
            }
        }
        if prune_next(p, first) is Some {
            assert(prune_next(p, first) == Some(full));
            assert(prune_next(full, second) is None);
            assert(removed_by(contents, start, full) == Set::<Path>::empty());
        }
        assert(all =~= Set::<Path>::empty());
    }
}

/// A prune that begins at the folder `start` removes exactly the folders from `start` upward, below
/// the root, that are left empty: up to the first that held something besides the next folder on
/// the way. (A folder with the metadata sidecar in it is tried, and stays.)
pub proof fn a_prune_removes_what_is_left_empty(
    contents: Contents,
    root: Path,
    start: Path,
    d: Path,
)
    requires
        root.is_prefix_of(start),
        root.len() < start.len(),
        forall|i: int| root.len() <= i < start.len() ==> #[trigger] start[i] is Name,
    ensures
        pruning(root, start) matches Some(p) && (removed_by(contents, start, p).contains(d)
            <==> exists|j: int|
            is_left_empty(contents, root, start, j, start.len() as int) && d
                == #[trigger] start.take(j)),
{
    assert(start.take(start.len() as int) =~= start);
    assert(root =~= start.take(root.len() as int));
    removed_from(contents, root, start, start.len() as int);
}

proof fn reached_further(job: JobView, a: Seq<Reply>, b: Seq<Reply>)
    ensures
        reached(job, a + b) == reached(reached(job, a), b),
    decreases b.len(),
{
    if b.len() == 0 {
        assert(a + b =~= a);
    } else {
        assert((a + b).drop_last() =~= a + b.drop_last());
        assert((a + b).last() == b.last());
        reached_further(job, a, b.drop_last());
    }
}

proof fn reached_first(job: JobView, reply: Reply, rest: Seq<Reply>)
    ensures
        reached(job, seq![reply] + rest) == reached(job_next(job, reply), rest),
{
    reached_further(job, seq![reply], rest);
    assert(seq![reply].drop_last() =~= Seq::empty());
    assert(reached(job, Seq::empty()) == job);
    assert(reached(job, seq![reply]) == job_next(job, reply));
}

proof fn a_prune_goes_on_with_the_command(
    contents: Contents,
    dir: Seq<char>,
    start: Path,
    p: PruningView,
    stamp: Option<Path>,
)
    ensures
        reached(
            JobView { dir, phase: Phase::Prune { at: p, stamp } },
            prune_answers(contents, start, p),
        ) == (JobView { dir, phase: pruned(stamp) }),
    decreases
            p.dir.len(),
            if p.empty {
                0nat
            } else {
                1nat
            },
{
    let job = JobView { dir, phase: Phase::Prune { at: p, stamp } };
    let answer = prune_answer(contents, start, p);
    match prune_next(p, answer) {
        Some(next) => {
            reached_first(job, answer, prune_answers(contents, start, next));
            a_prune_goes_on_with_the_command(contents, dir, start, next, stamp);
        },
        None => {
            reached_first(job, answer, Seq::empty());
            assert(seq![answer] + Seq::<Reply>::empty() =~= seq![answer]);
        },
    }
}

/// The answers to the prune that follows when `from` is gone.
pub open spec fn answers_after(contents: Contents, dir: Seq<char>, from: Path) -> Seq<Reply> {
    match parent_of(from) {
        Some(folder) => match pruning(root_of(dir), folder) {
            Some(p) => prune_answers(contents, folder, p),
            None => Seq::empty(),
        },
        None => Seq::empty(),
    }
}

proof fn a_rename_comes_to_its_prune(dir: Seq<char>, from: Path, target: Path, to: Seq<char>)
    requires
        is_strictly_below(root_of(dir), target),
    ensures
        ({
            let ok = Reply::Done(Ok(()));
            reached(
                JobView { dir, phase: resolved(dir, Task::RenameTo { from, to }, target) },
                seq![Reply::Exists(false), ok, ok],
            ) == (JobView { dir, phase: prune_after(dir, from, Some(target)) })
        }),
{
    let ok = Reply::Done(Ok(()));
    let free = Reply::Exists(false);
    assert(target[target.len() - 1] is Name);
    let j0 = JobView { dir, phase: resolved(dir, Task::RenameTo { from, to }, target) };
    let j1 = job_next(j0, free);
    let j2 = job_next(j1, ok);
    let j3 = job_next(j2, ok);
    assert(j3 == JobView { dir, phase: prune_after(dir, from, Some(target)) });
    reached_first(j0, free, seq![ok, ok]);
    reached_first(j1, ok, seq![ok]);
    reached_first(j2, ok, Seq::empty());
    assert(seq![free] + seq![ok, ok] =~= seq![free, ok, ok]);
    assert(seq![ok] + seq![ok] =~= seq![ok, ok]);
    assert(seq![ok] + Seq::<Reply>::empty() =~= seq![ok]);
    assert(reached(j3, Seq::empty()) == j3);
}

proof fn a_prune_comes_to_its_end(
    contents: Contents,
    dir: Seq<char>,
    from: Path,
    stamp: Option<Path>,
)
    ensures
        reached(
            JobView { dir, phase: prune_after(dir, from, stamp) },
            answers_after(contents, dir, from),
        ) == (JobView { dir, phase: pruned(stamp) }),
{
    if let Some(folder) = parent_of(from) {
        if let Some(p) = pruning(root_of(dir), folder) {
            a_prune_goes_on_with_the_command(contents, dir, folder, p, stamp);
        }
    }
}

/// Once both paths are known to stay inside, a rename to a place that is free succeeds if its
/// operations do, whatever the folders hold that are then looked at, and gives back the last
/// change.
pub proof fn renaming_succeeds(
    contents: Contents,
    dir: Seq<char>,
    from: Path,
    target: Path,
    to: Seq<char>,
    meta: FileMeta,
)
    requires
        is_strictly_below(root_of(dir), target),
    ensures
        ({
            let ok = Reply::Done(Ok(()));
            reached(
                JobView { dir, phase: resolved(dir, Task::RenameTo { from, to }, target) },
                seq![Reply::Exists(false), ok, ok] + answers_after(contents, dir, from) + seq![
                    Reply::Meta(Ok(meta)),
                ],
            ).phase == done(Outcome::Stamp(modified_of(meta)))
        }),
{
    let ok = Reply::Done(Ok(()));
    let opening = seq![Reply::Exists(false), ok, ok];
    let stat = Reply::Meta(Ok(meta));
    let middle = answers_after(contents, dir, from);
    let job = JobView { dir, phase: resolved(dir, Task::RenameTo { from, to }, target) };
    let after = JobView { dir, phase: pruned(Some(target)) };
    a_rename_comes_to_its_prune(dir, from, target, to);
    a_prune_comes_to_its_end(contents, dir, from, Some(target));
    reached_further(job, opening, middle);
    assert(reached(job, opening + middle) == after);
    reached_further(job, opening + middle, seq![stat]);
    reached_first(after, stat, Seq::empty());
    assert(seq![stat] + Seq::<Reply>::empty() =~= seq![stat]);
}

} // verus!
