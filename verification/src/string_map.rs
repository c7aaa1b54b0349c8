//! Maps from texts. No key occurs twice.

use vstd::prelude::*;

use crate::text::same_text;

verus! {

/// A map from texts to values of type `V`.
pub struct StringMap<V> {
    entries: Vec<(String, V)>,
}

/// Whether the entry `i` has the key `key`.
spec fn is_at<V>(entries: Seq<(String, V)>, key: Seq<char>, i: int) -> bool {
    0 <= i < entries.len() && entries[i].0@ == key
}

spec fn has_key<V>(entries: Seq<(String, V)>, key: Seq<char>) -> bool {
    exists|i: int| #[trigger] is_at(entries, key, i)
}

spec fn place<V>(entries: Seq<(String, V)>, key: Seq<char>) -> int {
    choose|i: int| #[trigger] is_at(entries, key, i)
}

spec fn has_unique_keys<V>(entries: Seq<(String, V)>) -> bool {
    forall|i: int, j: int|
        0 <= i < entries.len() && 0 <= j < entries.len() && (#[trigger] entries[i]).0@ == (
        #[trigger] entries[j]).0@ ==> i == j
}

spec fn content<V: View>(entries: Seq<(String, V)>) -> Map<Seq<char>, V::V> {
    Map::new(
        |key: Seq<char>| has_key(entries, key),
        |key: Seq<char>| entries[place(entries, key)].1@,
    )
}

impl<V: View> View for StringMap<V> {
    type V = Map<Seq<char>, V::V>;

    closed spec fn view(&self) -> Map<Seq<char>, V::V> {
        content(self.entries@)
    }
}

proof fn lookup<V: View>(entries: Seq<(String, V)>, i: int)
    requires
        has_unique_keys(entries),
        0 <= i < entries.len(),
    ensures
        content(entries).contains_key(entries[i].0@),
        content(entries)[entries[i].0@] == entries[i].1@,
{
    let key = entries[i].0@;
    assert(is_at(entries, key, i));
    let j = place(entries, key);
    assert(is_at(entries, key, j));
    assert(entries[i].0@ == entries[j].0@);
}

proof fn content_after_push<V: View>(entries: Seq<(String, V)>, new: (String, V))
    requires
        has_unique_keys(entries),
        !has_key(entries, new.0@),
    ensures
        has_unique_keys(entries.push(new)),
        content(entries.push(new)) == content(entries).insert(new.0@, new.1@),
{
    let longer = entries.push(new);
    assert forall|i: int, j: int|
        0 <= i < longer.len() && 0 <= j < longer.len() && (#[trigger] longer[i]).0@ == (
        #[trigger] longer[j]).0@ implies i == j by {
        if i < entries.len() && j == entries.len() {
            assert(is_at(entries, new.0@, i));
        } else if j < entries.len() && i == entries.len() {
            assert(is_at(entries, new.0@, j));
        } else if i < entries.len() && j < entries.len() {
            assert(entries[i] == longer[i] && entries[j] == longer[j]);
        }
    }
    let after = content(longer);
    let expected = content(entries).insert(new.0@, new.1@);
    assert forall|key: Seq<char>| #[trigger]
        after.dom().contains(key) == expected.dom().contains(key) && (after.dom().contains(key)
            ==> after[key] == expected[key]) by {
        if has_key(longer, key) {
            let i = place(longer, key);
            assert(is_at(longer, key, i));
            lookup(longer, i);
            if i < entries.len() {
                assert(is_at(entries, key, i));
                lookup(entries, i);
            }
        }
        if has_key(entries, key) {
            let i = place(entries, key);
            assert(is_at(entries, key, i));
            assert(is_at(longer, key, i));
        }
        if key == new.0@ {
            assert(is_at(longer, key, entries.len() as int));
            lookup(longer, entries.len() as int);
        }
    }
    assert(after =~= expected);
}

proof fn content_after_remove<V: View>(entries: Seq<(String, V)>, k: int)
    requires
        has_unique_keys(entries),
        0 <= k < entries.len(),
    ensures
        has_unique_keys(entries.remove(k)),
        content(entries.remove(k)) == content(entries).remove(entries[k].0@),
{
    let shorter = entries.remove(k);
    let gone = entries[k].0@;
    assert forall|i: int, j: int|
        0 <= i < shorter.len() && 0 <= j < shorter.len() && (#[trigger] shorter[i]).0@ == (
        #[trigger] shorter[j]).0@ implies i == j by {
        let a = if i < k {
            i
        } else {
            i + 1
        };
        let b = if j < k {
            j
        } else {
            j + 1
        };
        assert(shorter[i] == entries[a] && shorter[j] == entries[b]);
    }
    let after = content(shorter);
    let expected = content(entries).remove(gone);
    assert forall|key: Seq<char>| #[trigger]
        after.dom().contains(key) == expected.dom().contains(key) && (after.dom().contains(key)
            ==> after[key] == expected[key]) by {
        if has_key(shorter, key) {
            let i = place(shorter, key);
            assert(is_at(shorter, key, i));
            let a = if i < k {
                i
            } else {
                i + 1
            };
            assert(shorter[i] == entries[a]);
            assert(is_at(entries, key, a));
            lookup(shorter, i);
            lookup(entries, a);
            assert(key != gone) by {
                if key == gone {
                    assert(entries[a].0@ == entries[k].0@);
                }
            }
        }
        if has_key(entries, key) && key != gone {
            let i = place(entries, key);
            assert(is_at(entries, key, i));
            let b = if i < k {
                i
            } else {
                i - 1
            };
            assert(shorter[b] == entries[i]);
            assert(is_at(shorter, key, b));
        }
    }
    assert(after =~= expected);
}

proof fn content_has_size<V: View>(entries: Seq<(String, V)>)
    requires
        has_unique_keys(entries),
    ensures
        content(entries).dom().finite(),
        content(entries).dom().len() == entries.len(),
    decreases entries.len(),
{
    if entries.len() == 0 {
        assert forall|key: Seq<char>| !has_key(entries, key) by {}
        assert(content(entries).dom() =~= Set::<Seq<char>>::empty());
    } else {
        let rest = entries.drop_last();
        let last = entries.last();
        assert(has_unique_keys(rest)) by {
            assert forall|i: int, j: int|
                0 <= i < rest.len() && 0 <= j < rest.len() && (#[trigger] rest[i]).0@ == (
                #[trigger] rest[j]).0@ implies i == j by {
                assert(rest[i] == entries[i] && rest[j] == entries[j]);
            }
        }
        assert(!has_key(rest, last.0@)) by {
            if has_key(rest, last.0@) {
                let i = place(rest, last.0@);
                assert(is_at(rest, last.0@, i));
                assert(entries[i].0@ == entries[entries.len() - 1].0@);
            }
        }
        content_has_size(rest);
        content_after_push(rest, last);
        assert(rest.push(last) =~= entries);
        assert(content(entries).dom() =~= content(rest).dom().insert(last.0@));
    }
}

impl<V> StringMap<V> {
    #[verifier::type_invariant]
    spec fn keys_are_unique(self) -> bool {
        has_unique_keys(self.entries@)
    }
}

impl<V: View> StringMap<V> {
    /// The empty map.
    pub fn new() -> (res: Self)
        ensures
            res@ == Map::<Seq<char>, V::V>::empty(),
    {
        let res = StringMap { entries: Vec::new() };
        assert(res@ =~= Map::<Seq<char>, V::V>::empty()) by {
            assert forall|key: Seq<char>| !has_key(res.entries@, key) by {}
        }
        res
    }

    fn find(&self, key: &str) -> (res: Option<usize>)
        ensures
            match res {
                Some(i) => is_at(self.entries@, key@, i as int),
                None => !has_key(self.entries@, key@),
            },
    {
        let mut i: usize = 0;
        while i < self.entries.len()
            invariant
                i <= self.entries@.len(),
                forall|k: int| 0 <= k < i ==> !#[trigger] is_at(self.entries@, key@, k),
            decreases self.entries@.len() - i,
        {
            if same_text(self.entries[i].0.as_str(), key) {
                return Some(i);
            }
            i = i + 1;
        }
        None
    }

    /// The value of `key`.
    pub fn get(&self, key: &str) -> (res: Option<&V>)
        ensures
            match res {
                Some(value) => self@.contains_key(key@) && value@ == self@[key@],
                None => !self@.contains_key(key@),
            },
    {
        proof {
            use_type_invariant(self);
        }
        match self.find(key) {
            Some(i) => {
                proof {
                    lookup(self.entries@, i as int);
                }
                Some(&self.entries[i].1)
            },
            None => None,
        }
    }

    /// Whether `key` has a value.
    pub fn contains_key(&self, key: &str) -> (res: bool)
        ensures
            res == self@.contains_key(key@),
    {
        self.get(key).is_some()
    }

    /// Takes `key` out and gives its value.
    pub fn remove(&mut self, key: &str) -> (res: Option<V>)
        ensures
            final(self)@ == old(self)@.remove(key@),
            match res {
                Some(value) => old(self)@.contains_key(key@) && value@ == old(self)@[key@],
                None => !old(self)@.contains_key(key@),
            },
    {
        proof {
            use_type_invariant(&*self);
        }
        let found = self.find(key);
        match found {
            Some(i) => {
                proof {
                    lookup(self.entries@, i as int);
                    content_after_remove(self.entries@, i as int);
                }
                let mut entries: Vec<(String, V)> = Vec::new();
                std::mem::swap(&mut entries, &mut self.entries);
                let (_, value) = entries.remove(i);
                self.entries = entries;
                Some(value)
            },
            None => {
                assert(self@.remove(key@) =~= self@);
                None
            },
        }
    }

    /// Gives `key` the value `value`.
    pub fn insert(&mut self, key: String, value: V)
        ensures
            final(self)@ == old(self)@.insert(key@, value@),
    {
        let ghost before = self@;
        let _ = self.remove(key.as_str());
        proof {
            use_type_invariant(&*self);
            assert(!self@.contains_key(key@));
            content_after_push(self.entries@, (key, value));
            assert(before.remove(key@).insert(key@, value@) =~= before.insert(key@, value@));
        }
        let mut entries: Vec<(String, V)> = Vec::new();
        std::mem::swap(&mut entries, &mut self.entries);
        entries.push((key, value));
        self.entries = entries;
    }

    /// Whether no key has a value.
    pub fn is_empty(&self) -> (res: bool)
        ensures
            res == (self@ == Map::<Seq<char>, V::V>::empty()),
    {
        proof {
            use_type_invariant(self);
            if self.entries@.len() > 0 {
                lookup(self.entries@, 0);
            } else {
                assert forall|key: Seq<char>| !has_key(self.entries@, key) by {}
                assert(self@ =~= Map::<Seq<char>, V::V>::empty());
            }
        }
        self.entries.len() == 0
    }

    /// How many keys have a value.
    pub fn len(&self) -> (res: usize)
        ensures
            self@.dom().finite(),
            res == self@.dom().len(),
    {
        proof {
            use_type_invariant(self);
            content_has_size(self.entries@);
        }
        self.entries.len()
    }

    /// All keys, each once.
    pub fn keys(&self) -> (res: Vec<String>)
        ensures
            is_key_list(self@, res@),
    {
        proof {
            use_type_invariant(self);
        }
        let mut out: Vec<String> = Vec::new();
        let mut i: usize = 0;
        while i < self.entries.len()
            invariant
                i <= self.entries@.len(),
                out@.len() == i,
                forall|k: int| 0 <= k < i ==> (#[trigger] out@[k])@ == self.entries@[k].0@,
            decreases self.entries@.len() - i,
        {
            out.push(self.entries[i].0.clone());
            i = i + 1;
        }
        proof {
            assert forall|key: Seq<char>| self@.contains_key(key) implies exists|k: int|
                0 <= k < out@.len() && (#[trigger] out@[k])@ == key by {
                let k = place(self.entries@, key);
                assert(is_at(self.entries@, key, k));
                assert(out@[k]@ == key);
            }
            assert forall|k: int| 0 <= k < out@.len() implies self@.contains_key(
                (#[trigger] out@[k])@,
            ) by {
                lookup(self.entries@, k);
            }
            assert forall|i: int, j: int|
                0 <= i < out@.len() && 0 <= j < out@.len() && (#[trigger] out@[i])@ == (
                #[trigger] out@[j])@ implies i == j by {
                assert(self.entries@[i].0@ == self.entries@[j].0@);
            }
        }
        out
    }
}

/// Whether `list` holds the keys of `map`, each once.
pub open spec fn is_key_list<T>(map: Map<Seq<char>, T>, list: Seq<String>) -> bool {
    &&& forall|i: int| 0 <= i < list.len() ==> map.contains_key((#[trigger] list[i])@)
    &&& forall|key: Seq<char>|
        map.contains_key(key) ==> exists|i: int| 0 <= i < list.len() && (#[trigger] list[i])@ == key
    &&& forall|i: int, j: int|
        0 <= i < list.len() && 0 <= j < list.len() && (#[trigger] list[i])@ == (
        #[trigger] list[j])@ ==> i == j
}

} // verus!
