//! A map from strings to strings, viewed as a `Map<Seq<char>, Seq<char>>`.

use vstd::prelude::*;
use crate::text::{chars_eq, chars_of};

verus! {

/// A finite map from strings to strings.  Each key occurs once.
pub struct StringMap {
    entries: Vec<(String, String)>,
}

/// The map that a list of entries with distinct keys describes.
pub open spec fn map_of(entries: Seq<(String, String)>) -> Map<Seq<char>, Seq<char>>
    decreases entries.len(),
{
    if entries.len() == 0 {
        Map::empty()
    } else {
        map_of(entries.drop_last()).insert(entries.last().0@, entries.last().1@)
    }
}

/// No key occurs twice.
pub open spec fn keys_distinct(entries: Seq<(String, String)>) -> bool {
    forall|i: int, j: int|
        0 <= i < entries.len() && 0 <= j < entries.len() && i != j ==> entries[i].0@
            != entries[j].0@
}

/// The keys of `map_of` are the keys of the entries, and each maps to its
/// entry's value.
proof fn lemma_map_of(entries: Seq<(String, String)>)
    requires
        keys_distinct(entries),
    ensures
        forall|k: Seq<char>|
            #[trigger] map_of(entries).contains_key(k) <==> exists|i: int|
                0 <= i < entries.len() && entries[i].0@ == k,
        forall|i: int|
            0 <= i < entries.len() ==> #[trigger] map_of(entries)[entries[i].0@] == entries[i].1@,
    decreases entries.len(),
{
    if entries.len() > 0 {
        let rest = entries.drop_last();
        assert(keys_distinct(rest));
        lemma_map_of(rest);
        assert forall|k: Seq<char>|
            #[trigger] map_of(entries).contains_key(k) <==> exists|i: int|
                0 <= i < entries.len() && entries[i].0@ == k by {
            if map_of(entries).contains_key(k) {
                if k != entries.last().0@ {
                    assert(map_of(rest).contains_key(k));
                    let i = choose|i: int| 0 <= i < rest.len() && rest[i].0@ == k;
                    assert(entries[i].0@ == k);
                } else {
                    assert(entries[entries.len() - 1].0@ == k);
                }
            }
            if exists|i: int| 0 <= i < entries.len() && entries[i].0@ == k {
                let i = choose|i: int| 0 <= i < entries.len() && entries[i].0@ == k;
                if i < entries.len() - 1 {
                    assert(rest[i].0@ == k);
                    assert(map_of(rest).contains_key(k));
                }
            }
        }
        assert forall|i: int| 0 <= i < entries.len() implies #[trigger] map_of(
            entries,
        )[entries[i].0@] == entries[i].1@ by {
            if i < entries.len() - 1 {
                assert(rest[i] == entries[i]);
                assert(entries[i].0@ != entries[entries.len() - 1].0@);
                assert(map_of(rest)[rest[i].0@] == rest[i].1@);
            }
        }
    }
}

/// Two entry lists with distinct keys, the same keys and the same values
/// describe the same map.
proof fn lemma_map_of_ext(a: Seq<(String, String)>, b: Seq<(String, String)>, m: Map<
    Seq<char>,
    Seq<char>,
>)
    requires
        keys_distinct(a),
        keys_distinct(b),
        forall|k: Seq<char>|
            #[trigger] m.contains_key(k) <==> exists|i: int| 0 <= i < b.len() && b[i].0@ == k,
        forall|i: int| 0 <= i < b.len() ==> #[trigger] m[b[i].0@] == b[i].1@,
    ensures
        map_of(b) == m,
{
    lemma_map_of(b);
    assert forall|k: Seq<char>| #[trigger] map_of(b).contains_key(k) implies map_of(b)[k] == m[k] by {
        let i = choose|i: int| 0 <= i < b.len() && b[i].0@ == k;
        assert(map_of(b)[b[i].0@] == b[i].1@);
    }
    assert(map_of(b) =~= m);
}

impl View for StringMap {
    type V = Map<Seq<char>, Seq<char>>;

    closed spec fn view(&self) -> Map<Seq<char>, Seq<char>> {
        map_of(self.entries@)
    }
}

impl StringMap {
    #[verifier::type_invariant]
    spec fn well_formed(self) -> bool {
        keys_distinct(self.entries@)
    }

    /// The empty map.
    pub fn new() -> (res: Self)
        ensures
            res@ == Map::<Seq<char>, Seq<char>>::empty(),
    {
        StringMap { entries: Vec::new() }
    }

    /// The position of the entry for `key`.
    fn position(&self, key: &[char]) -> (res: Option<usize>)
        ensures
            match res {
                Some(i) => i < self.entries@.len() && self.entries@[i as int].0@ == key@,
                None => forall|i: int|
                    0 <= i < self.entries@.len() ==> self.entries@[i].0@ != key@,
            },
    {
        let mut i: usize = 0;
        while i < self.entries.len()
            invariant
                i <= self.entries@.len(),
                forall|j: int| 0 <= j < i ==> self.entries@[j].0@ != key@,
            decreases self.entries@.len() - i,
        {
            let k = chars_of(self.entries[i].0.as_str());
            if chars_eq(k.as_slice(), key) {
                return Some(i);
            }
            i = i + 1;
        }
        None
    }

    /// The value for `key` (`HashMap::get`).
    pub fn get(&self, key: &str) -> (res: Option<&String>)
        ensures
            match res {
                Some(v) => self@.contains_key(key@) && self@[key@] == v@,
                None => !self@.contains_key(key@),
            },
    {
        proof {
            use_type_invariant(self);
            lemma_map_of(self.entries@);
        }
        let k = chars_of(key);
        match self.position(k.as_slice()) {
            Some(i) => Some(&self.entries[i].1),
            None => None,
        }
    }

    /// Sets the value for `key`, returning the value it replaces
    /// (`HashMap::insert`).
    pub fn insert(&mut self, key: String, value: String) -> (res: Option<String>)
        ensures
            final(self)@ == old(self)@.insert(key@, value@),
            match res {
                Some(v) => old(self)@.contains_key(key@) && old(self)@[key@] == v@,
                None => !old(self)@.contains_key(key@),
            },
    {
        proof {
            use_type_invariant(&*self);
            lemma_map_of(self.entries@);
        }
        let ghost old_entries = self.entries@;
        let ghost m = map_of(old_entries).insert(key@, value@);
        let k = chars_of(key.as_str());
        let found = self.position(k.as_slice());
        let mut entries: Vec<(String, String)> = Vec::new();
        std::mem::swap(&mut entries, &mut self.entries);
        match found {
            Some(i) => {
                let old_entry = entries.remove(i);
                entries.insert(i, (key, value));
                let ghost new_entries = entries@;
                assert(new_entries =~= old_entries.update(i as int, (key, value)));
                assert(keys_distinct(new_entries));
                proof {
                    assert forall|kk: Seq<char>| #[trigger] m.contains_key(kk) <==> exists|j: int|
                        0 <= j < new_entries.len() && new_entries[j].0@ == kk by {
                        if m.contains_key(kk) && kk != key@ {
                            let j = choose|j: int|
                                0 <= j < old_entries.len() && old_entries[j].0@ == kk;
                            assert(new_entries[j].0@ == kk);
                        }
                        if kk == key@ {
                            assert(new_entries[i as int].0@ == kk);
                        }
                        if exists|j: int| 0 <= j < new_entries.len() && new_entries[j].0@ == kk {
                            let j = choose|j: int|
                                0 <= j < new_entries.len() && new_entries[j].0@ == kk;
                            if j != i {
                                assert(old_entries[j].0@ == kk);
                            }
                        }
                    }
                    assert forall|j: int| 0 <= j < new_entries.len() implies #[trigger] m[new_entries[j].0@]
                        == new_entries[j].1@ by {
                        if j != i {
                            assert(old_entries[j].0@ != key@);
                            assert(map_of(old_entries)[old_entries[j].0@] == old_entries[j].1@);
                        }
                    }
                    lemma_map_of_ext(new_entries, new_entries, m);
                }
                self.entries = entries;
                Some(old_entry.1)
            },
            None => {
                entries.push((key, value));
                assert(entries@.drop_last() =~= old_entries);
                assert(keys_distinct(entries@));
                self.entries = entries;
                None
            },
        }
    }

    /// The entries of the map, each key once.
    pub fn to_vec(&self) -> (res: Vec<(String, String)>)
        ensures
            keys_distinct(res@),
            map_of(res@) == self@,
    {
        proof {
            use_type_invariant(self);
        }
        let mut res: Vec<(String, String)> = Vec::new();
        let mut i: usize = 0;
        while i < self.entries.len()
            invariant
                i <= self.entries@.len(),
                keys_distinct(self.entries@),
                res@ =~= self.entries@.take(i as int),
            decreases self.entries@.len() - i,
        {
            let k = self.entries[i].0.clone();
            let v = self.entries[i].1.clone();
            res.push((k, v));
            assert(self.entries@.take(i + 1) =~= self.entries@.take(i as int).push(
                self.entries@[i as int],
            ));
            i = i + 1;
        }
        assert(self.entries@.take(self.entries@.len() as int) =~= self.entries@);
        res
    }
}

} // verus!
