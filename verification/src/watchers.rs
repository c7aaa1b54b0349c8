//! Who watches which folder: for each watched folder the windows that asked for its changes, with
//! how often each of them asked.

use vstd::prelude::*;

use crate::fsio::{stringify, OsFault};
use crate::path::FsPath;
use crate::string_map::{is_key_list, StringMap};
use crate::watch::{batch_view, changes_to_tell, is_told_as, texts, WatchEvent};

verus! {

/// The subscriptions to one folder: how often each window asked.
pub type Subscriptions = Map<Seq<char>, u32>;

/// How often the window `label` asked.
pub open spec fn count_of(subs: Subscriptions, label: Seq<char>) -> int {
    if subs.contains_key(label) {
        subs[label] as int
    } else {
        0
    }
}

/// Whether no window is held that did not ask.
pub open spec fn all_counted(subs: Subscriptions) -> bool {
    forall|label: Seq<char>| #[trigger] subs.contains_key(label) ==> subs[label] >= 1
}

/// The subscriptions once `label` has asked once more.
pub open spec fn with_one_more(subs: Subscriptions, label: Seq<char>) -> Subscriptions {
    subs.insert(label, (count_of(subs, label) + 1) as u32)
}

/// The subscriptions once `label` has taken back one request. The last one takes the window out;
/// a window that did not ask changes nothing.
pub open spec fn with_one_less(subs: Subscriptions, label: Seq<char>) -> Subscriptions {
    if count_of(subs, label) <= 1 {
        subs.remove(label)
    } else {
        subs.insert(label, (subs[label] - 1) as u32)
    }
}

/// Whether nobody asked.
pub open spec fn is_unused(subs: Subscriptions) -> bool {
    subs == Map::<Seq<char>, u32>::empty()
}

/// Taking back a request undoes it, however the requests of other windows lie around it.
pub proof fn one_less_undoes_one_more(subs: Subscriptions, label: Seq<char>, other: Seq<char>)
    requires
        all_counted(subs),
        count_of(subs, label) < u32::MAX,
        count_of(subs, other) < u32::MAX,
        label != other,
    ensures
        with_one_less(with_one_more(subs, label), label) == subs,
        with_one_less(with_one_more(with_one_more(subs, label), other), label) == with_one_more(
            subs,
            other,
        ),
{
    assert(with_one_less(with_one_more(subs, label), label) =~= subs);
    assert(with_one_less(with_one_more(with_one_more(subs, label), other), label)
        =~= with_one_more(subs, other));
}

/// A window that asked twice and took back one request still gets the changes: only when it has
/// taken back as many requests as it made, and no other window asked, is nobody left.
pub proof fn a_subscription_outlives_one_of_two_requests(subs: Subscriptions, label: Seq<char>)
    requires
        all_counted(subs),
        count_of(subs, label) + 2 <= u32::MAX,
    ensures
        ({
            let twice = with_one_more(with_one_more(subs, label), label);
            let once = with_one_less(twice, label);
            &&& once.contains_key(label)
            &&& !is_unused(once)
            &&& with_one_less(once, label) == subs
        }),
{
    let twice = with_one_more(with_one_more(subs, label), label);
    let once = with_one_less(twice, label);
    assert(once =~= with_one_more(subs, label));
    assert(once.contains_key(label));
    assert(with_one_less(once, label) =~= subs);
}

/// Adds one request of the window `label`.
pub fn add_subscription(subs: &mut StringMap<u32>, label: &str)
    requires
        count_of(old(subs)@, label@) < u32::MAX,
    ensures
        final(subs)@ == with_one_more(old(subs)@, label@),
{
    let count: u32 = match subs.get(label) {
        Some(n) => *n,
        None => 0,
    };
    subs.insert(label.to_owned(), count + 1);
}

/// Takes back one request of the window `label` and says whether nobody is left. A window that did
/// not ask changes nothing.
pub fn drop_subscription(subs: &mut StringMap<u32>, label: &str) -> (res: bool)
    requires
        old(subs)@.contains_key(label@) ==> old(subs)@[label@] >= 1,
    ensures
        final(subs)@ == with_one_less(old(subs)@, label@),
        res == is_unused(final(subs)@),
{
    let count: u32 = match subs.get(label) {
        Some(n) => *n,
        None => 0,
    };
    if count <= 1 {
        let _ = subs.remove(label);
    } else {
        subs.insert(label.to_owned(), count - 1);
    }
    subs.is_empty()
}

/// The watched folders, each with its subscriptions.
pub type Registry = Map<Seq<char>, Subscriptions>;

/// Whether every watched folder has a subscriber, and every subscriber asked.
pub open spec fn is_live(registry: Registry) -> bool {
    forall|dir: Seq<char>| #[trigger]
        registry.contains_key(dir) ==> !is_unused(registry[dir]) && all_counted(registry[dir])
}

/// The subscriptions to `dir`.
pub open spec fn subscriptions_of(registry: Registry, dir: Seq<char>) -> Subscriptions {
    if registry.contains_key(dir) {
        registry[dir]
    } else {
        Map::empty()
    }
}

/// The registry once the window `label` has asked for `dir`.
pub open spec fn subscribed(registry: Registry, dir: Seq<char>, label: Seq<char>) -> Registry {
    registry.insert(dir, with_one_more(subscriptions_of(registry, dir), label))
}

/// The registry once the window `label` has taken back one request for `dir`. With its last
/// subscriber a folder is no longer watched.
pub open spec fn unsubscribed(registry: Registry, dir: Seq<char>, label: Seq<char>) -> Registry {
    if !registry.contains_key(dir) {
        registry
    } else if is_unused(with_one_less(registry[dir], label)) {
        registry.remove(dir)
    } else {
        registry.insert(dir, with_one_less(registry[dir], label))
    }
}

/// The registry once the window `label` is gone with all its requests.
pub open spec fn without_window(registry: Registry, label: Seq<char>) -> Registry {
    Map::new(
        |dir: Seq<char>| registry.contains_key(dir) && !is_unused(registry[dir].remove(label)),
        |dir: Seq<char>| registry[dir].remove(label),
    )
}

/// Whether the window `label` is the only one that asked for `dir`.
pub open spec fn is_left_unused(registry: Registry, label: Seq<char>, dir: Seq<char>) -> bool {
    registry.contains_key(dir) && is_unused(registry[dir].remove(label))
}

/// Whether `list` holds the folders that are no longer watched once the window `label` is gone,
/// each once.
pub open spec fn is_unwatched_list(
    registry: Registry,
    label: Seq<char>,
    list: Seq<Seq<char>>,
) -> bool {
    &&& list.no_duplicates()
    &&& forall|dir: Seq<char>| #[trigger]
        list.contains(dir) <==> is_left_unused(registry, label, dir)
}

/// After a window is gone no folder holds a request of it, and the requests of the other windows
/// are what they were.
pub proof fn a_window_leaves_no_subscription(
    registry: Registry,
    label: Seq<char>,
    dir: Seq<char>,
    other: Seq<char>,
)
    requires
        is_live(registry),
    ensures
        is_live(without_window(registry, label)),
        count_of(subscriptions_of(without_window(registry, label), dir), label) == 0,
        other != label ==> count_of(
            subscriptions_of(without_window(registry, label), dir),
            other,
        ) == count_of(subscriptions_of(registry, dir), other),
{
    let after = without_window(registry, label);
    assert forall|d: Seq<char>| #[trigger] after.contains_key(d) implies !is_unused(after[d])
        && all_counted(after[d]) by {
        assert(registry.contains_key(d));
        assert(after[d] == registry[d].remove(label));
        assert forall|l: Seq<char>| #[trigger] after[d].contains_key(l) implies after[d][l] >= 1 by {
            assert(registry[d].contains_key(l));
        }
    }
    if registry.contains_key(dir) && !after.contains_key(dir) {
        assert(is_unused(registry[dir].remove(label)));
        assert(!registry[dir].remove(label).contains_key(other));
    }
}

/// Asking for a folder and taking the request back leaves the registry as it was.
pub proof fn unsubscribing_undoes_subscribing(
    registry: Registry,
    dir: Seq<char>,
    label: Seq<char>,
)
    requires
        is_live(registry),
        count_of(subscriptions_of(registry, dir), label) < u32::MAX,
    ensures
        unsubscribed(subscribed(registry, dir, label), dir, label) == registry,
{
    let subs = subscriptions_of(registry, dir);
    assert(with_one_less(with_one_more(subs, label), label) =~= subs);
    assert(unsubscribed(subscribed(registry, dir, label), dir, label) =~= registry);
}

proof fn subscribing_keeps_live(registry: Registry, dir: Seq<char>, label: Seq<char>)
    requires
        is_live(registry),
        count_of(subscriptions_of(registry, dir), label) < u32::MAX,
    ensures
        is_live(subscribed(registry, dir, label)),
{
    let after = subscribed(registry, dir, label);
    assert forall|d: Seq<char>| #[trigger] after.contains_key(d) implies !is_unused(after[d])
        && all_counted(after[d]) by {
        if d == dir {
            assert(after[d].contains_key(label));
            let subs = subscriptions_of(registry, dir);
            assert forall|l: Seq<char>| #[trigger] after[d].contains_key(l) implies after[d][l]
                >= 1 by {
                if l != label {
                    assert(subs.contains_key(l));
                    assert(registry.contains_key(dir));
                }
            }
        } else {
            assert(registry.contains_key(d));
        }
    }
}

proof fn unsubscribing_keeps_live(registry: Registry, dir: Seq<char>, label: Seq<char>)
    requires
        is_live(registry),
    ensures
        is_live(unsubscribed(registry, dir, label)),
{
    let after = unsubscribed(registry, dir, label);
    assert forall|d: Seq<char>| #[trigger] after.contains_key(d) implies !is_unused(after[d])
        && all_counted(after[d]) by {
        assert(registry.contains_key(d));
        if d == dir {
            let subs = registry[dir];
            assert forall|l: Seq<char>| #[trigger] after[d].contains_key(l) implies after[d][l]
                >= 1 by {
                if l != label {
                    assert(subs.contains_key(l));
                }
            }
        }
    }
}

/// The watched folders and their subscribers. A folder is named by the text with which it was
/// asked for.
pub struct Watchers {
    dirs: StringMap<StringMap<u32>>,
}

impl View for Watchers {
    type V = Registry;

    closed spec fn view(&self) -> Registry {
        self.dirs@
    }
}

/// What the changes in a folder are told as, and to whom.
pub struct Notice {
    pub labels: Vec<String>,
    pub paths: Vec<String>,
}

/// What is left to do of a request to watch a folder.
#[derive(Clone, Copy, PartialEq, Eq, Structural)]
pub enum WatchStep {
    /// The folder is watched already, and the window now gets its changes too. Look whether the
    /// window still lives, and hand that to `reap_dead_window_subscriptions`.
    CheckWindow,
    /// Nobody watches the folder: start a watcher and hand its outcome to `watch_built`.
    Build,
}

impl Watchers {
    #[verifier::type_invariant]
    spec fn is_well_formed(self) -> bool {
        is_live(self.dirs@)
    }

    /// Nothing is watched.
    pub fn new() -> (res: Self)
        ensures
            res@ == Map::<Seq<char>, Subscriptions>::empty(),
            is_live(res@),
    {
        Watchers { dirs: StringMap::new() }
    }

    /// How often the window `label` asked for `dir`.
    pub fn count(&self, dir: &str, label: &str) -> (res: u32)
        ensures
            res == count_of(subscriptions_of(self@, dir@), label@),
    {
        match self.dirs.get(dir) {
            Some(subs) => match subs.get(label) {
                Some(n) => *n,
                None => 0,
            },
            None => 0,
        }
    }

    /// One more request of the window `label` for `dir`; says whether the folder was watched
    /// before.
    fn subscribe(&mut self, dir: &str, label: &str) -> (res: bool)
        requires
            count_of(subscriptions_of(old(self)@, dir@), label@) < u32::MAX,
        ensures
            final(self)@ == subscribed(old(self)@, dir@, label@),
            is_live(final(self)@),
            res == old(self)@.contains_key(dir@),
    {
        proof {
            use_type_invariant(&*self);
            subscribing_keeps_live(self.dirs@, dir@, label@);
        }
        let ghost before = self.dirs@;
        let mut dirs: StringMap<StringMap<u32>> = StringMap::new();
        std::mem::swap(&mut dirs, &mut self.dirs);
        let taken = dirs.remove(dir);
        let watched = taken.is_some();
        let mut subs = match taken {
            Some(subs) => subs,
            None => StringMap::new(),
        };
        add_subscription(&mut subs, label);
        dirs.insert(dir.to_owned(), subs);
        assert(dirs@ =~= subscribed(before, dir@, label@));
        self.dirs = dirs;
        watched
    }

    /// The window `label` asks for the changes in `dir`. Where the folder is watched already that
    /// is all; else a watcher has to be started first.
    pub fn notes_watch(&mut self, dir: &str, label: &str) -> (res: WatchStep)
        requires
            count_of(subscriptions_of(old(self)@, dir@), label@) < u32::MAX,
        ensures
            if old(self)@.contains_key(dir@) {
                &&& res == WatchStep::CheckWindow
                &&& final(self)@ == subscribed(old(self)@, dir@, label@)
            } else {
                &&& res == WatchStep::Build
                &&& final(self)@ == old(self)@
            },
            is_live(final(self)@),
    {
        proof {
            use_type_invariant(&*self);
        }
        if self.dirs.contains_key(dir) {
            let _ = self.subscribe(dir, label);
            WatchStep::CheckWindow
        } else {
            WatchStep::Build
        }
    }

    /// A watcher for `dir` was started, or could not be. Once it runs the window `label` gets the
    /// changes. The result says whether another watcher for the folder was faster: the new one is
    /// then to be discarded.
    pub fn watch_built(&mut self, dir: &str, label: &str, built: Result<(), OsFault>) -> (res:
        Result<bool, String>)
        requires
            count_of(subscriptions_of(old(self)@, dir@), label@) < u32::MAX,
        ensures
            match built {
                Ok(_) => {
                    &&& res == Ok::<bool, String>(old(self)@.contains_key(dir@))
                    &&& final(self)@ == subscribed(old(self)@, dir@, label@)
                },
                Err(fault) => {
                    &&& res matches Err(text) && text@ == fault@.text
                    &&& final(self)@ == old(self)@
                },
            },
            is_live(final(self)@),
    {
        proof {
            use_type_invariant(&*self);
        }
        match built {
            Ok(_) => Ok(self.subscribe(dir, label)),
            Err(fault) => Err(stringify(fault)),
        }
    }

    /// The window `label` takes back one request for `dir`. Says whether the folder is no longer
    /// watched, so that its watcher has to be stopped. What was not asked for changes nothing.
    pub fn notes_unwatch(&mut self, dir: &str, label: &str) -> (res: bool)
        ensures
            final(self)@ == unsubscribed(old(self)@, dir@, label@),
            is_live(final(self)@),
            res == (old(self)@.contains_key(dir@) && !final(self)@.contains_key(dir@)),
    {
        proof {
            use_type_invariant(&*self);
            unsubscribing_keeps_live(self.dirs@, dir@, label@);
        }
        let ghost before = self.dirs@;
        let mut dirs: StringMap<StringMap<u32>> = StringMap::new();
        std::mem::swap(&mut dirs, &mut self.dirs);
        let emptied = match dirs.remove(dir) {
            Some(taken) => {
                let mut subs = taken;
                let unused = drop_subscription(&mut subs, label);
                if !unused {
                    dirs.insert(dir.to_owned(), subs);
                }
                unused
            },
            None => false,
        };
        assert(dirs@ =~= unsubscribed(before, dir@, label@));
        self.dirs = dirs;
        emptied
    }

    /// Takes back all requests of the window `label`, which is gone or starts anew, and gives the
    /// folders that are no longer watched.
    pub fn remove_window_subscriptions(&mut self, label: &str) -> (res: Vec<String>)
        ensures
            final(self)@ == without_window(old(self)@, label@),
            is_live(final(self)@),
            is_unwatched_list(old(self)@, label@, texts(res@)),
    {
        proof {
            use_type_invariant(&*self);
            a_window_leaves_no_subscription(self.dirs@, label@, Seq::empty(), Seq::empty());
        }
        let ghost before = self.dirs@;
        let ghost after = without_window(before, label@);
        let keys = self.dirs.keys();
        let mut dirs: StringMap<StringMap<u32>> = StringMap::new();
        std::mem::swap(&mut dirs, &mut self.dirs);
        let mut emptied: Vec<String> = Vec::new();
        let mut i: usize = 0;
        let ghost names = texts(keys@);
        assert(texts(emptied@) =~= Seq::<Seq<char>>::empty());
        while i < keys.len()
            invariant
                i <= keys@.len(),
                is_key_list(before, keys@),
                names == texts(keys@),
                after == without_window(before, label@),
                texts(emptied@).no_duplicates(),
                forall|dir: Seq<char>| #[trigger]
                    texts(emptied@).contains(dir) <==> (names.take(i as int).contains(dir)
                        && is_left_unused(before, label@, dir)),
                forall|dir: Seq<char>| #[trigger]
                    dirs@.contains_key(dir) <==> if names.take(i as int).contains(dir) {
                        after.contains_key(dir)
                    } else {
                        before.contains_key(dir)
                    },
                forall|dir: Seq<char>| #[trigger]
                    dirs@.contains_key(dir) ==> dirs@[dir] == if names.take(
                        i as int,
                    ).contains(dir) {
                        after[dir]
                    } else {
                        before[dir]
                    },
            decreases keys@.len() - i,
        {
            let ghost done = names.take(i as int);
            let ghost more = names.take(i + 1);
            let ghost dir = keys@[i as int]@;
            let ghost held = dirs@;
            let ghost gone = texts(emptied@);
            proof {
                assert(more =~= done.push(dir));
                assert forall|d: Seq<char>| more.contains(d) <==> done.contains(d) || d == dir by {
                    if done.contains(d) {
                        let k = choose|k: int| 0 <= k < done.len() && done[k] == d;
                        assert(more[k] == d);
                    }
                    if d == dir {
                        assert(more[i as int] == d);
                    }
                }
                if done.contains(dir) {
                    let k = choose|k: int| 0 <= k < done.len() && done[k] == dir;
                    assert(keys@[k]@ == keys@[i as int]@);
                }
                assert(!done.contains(dir));
                assert(dirs@.contains_key(dir));
            }
            if let Some(taken) = dirs.remove(keys[i].as_str()) {
                let mut subs = taken;
                let _ = subs.remove(label);
                if subs.is_empty() {
                    emptied.push(keys[i].clone());
                    assert(texts(emptied@) =~= gone.push(dir));
                    assert(!gone.contains(dir));
                } else {
                    dirs.insert(keys[i].clone(), subs);
                }
            }
            proof {
                assert forall|d: Seq<char>| #[trigger]
                    texts(emptied@).contains(d) <==> (more.contains(d) && is_left_unused(
                        before,
                        label@,
                        d,
                    )) by {
                    if gone.contains(d) && texts(emptied@).len() > gone.len() {
                        let k = choose|k: int| 0 <= k < gone.len() && gone[k] == d;
                        assert(texts(emptied@)[k] == d);
                    }
                    if texts(emptied@).len() > gone.len() {
                        assert(texts(emptied@)[gone.len() as int] == dir);
                    }
                }
            }
            i = i + 1;
        }
        proof {
            assert(names.take(names.len() as int) =~= names);
            assert forall|d: Seq<char>| before.contains_key(d) <==> #[trigger] names.contains(d) by {
                if before.contains_key(d) {
                    let k = choose|k: int| 0 <= k < keys@.len() && (#[trigger] keys@[k])@ == d;
                    assert(names[k] == d);
                }
                if names.contains(d) {
                    let k = choose|k: int| 0 <= k < names.len() && names[k] == d;
                    assert(keys@[k]@ == d);
                }
            }
            assert forall|d: Seq<char>| #[trigger] dirs@.dom().contains(d) == after.dom().contains(
                d,
            ) && (dirs@.dom().contains(d) ==> dirs@[d] == after[d]) by {
                assert(dirs@.contains_key(d) <==> dirs@.dom().contains(d));
                assert(names.contains(d) <==> before.contains_key(d));
            }
            assert(dirs@ =~= after);
            assert forall|d: Seq<char>| #[trigger] texts(emptied@).contains(d) <==> is_left_unused(
                before,
                label@,
                d,
            ) by {
                assert(names.contains(d) <==> before.contains_key(d));
            }
        }
        self.dirs = dirs;
        emptied
    }

    /// The window `label` asked for changes while it may have been closed: where it no longer
    /// lives its requests are taken back. Gives the folders that are no longer watched.
    pub fn reap_dead_window_subscriptions(&mut self, label: &str, alive: bool) -> (res: Vec<String>)
        ensures
            if alive {
                &&& final(self)@ == old(self)@
                &&& res@.len() == 0
            } else {
                &&& final(self)@ == without_window(old(self)@, label@)
                &&& is_unwatched_list(old(self)@, label@, texts(res@))
            },
            is_live(final(self)@),
    {
        proof {
            use_type_invariant(&*self);
        }
        if alive {
            Vec::new()
        } else {
            self.remove_window_subscriptions(label)
        }
    }

    /// What a batch of changes in the folder `dir` is told as, and the windows that are told:
    /// those that asked for the folder. Nothing where no change matters or the folder is no longer
    /// watched. An error in place of a batch means that changes may have been lost.
    pub fn handle_watch_events(
        &self,
        dir: &str,
        canon_root: &FsPath,
        batch: &Result<Vec<WatchEvent>, ()>,
    ) -> (res: Option<Notice>)
        ensures
            match res {
                Some(notice) => {
                    &&& is_told_as(
                        canon_root@,
                        batch_view(*batch),
                        Some(texts(notice.paths@)),
                    )
                    &&& self@.contains_key(dir@)
                    &&& is_key_list(self@[dir@], notice.labels@)
                },
                None => is_told_as(canon_root@, batch_view(*batch), None)
                    || !self@.contains_key(dir@),
            },
    {
        match changes_to_tell(canon_root, batch) {
            Some(paths) => match self.dirs.get(dir) {
                Some(subs) => Some(Notice { labels: subs.keys(), paths }),
                None => None,
            },
            None => None,
        }
    }
}

} // verus!
