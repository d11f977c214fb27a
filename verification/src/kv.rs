//! A string-to-string mapping with unique keys, viewed as a
//! `Map<Seq<char>, Seq<char>>`. Later inserts overwrite earlier ones,
//! and merging two mappings lets the right-hand side win on key
//! collisions.

use vstd::prelude::*;
use crate::text::str_eq;

verus! {

/// Map described by a sequence of key-value pairs, later pairs
/// overwriting earlier ones.
pub open spec fn map_of(s: Seq<(Seq<char>, Seq<char>)>) -> Map<Seq<char>, Seq<char>>
    decreases s.len(),
{
    if s.len() == 0 {
        Map::empty()
    } else {
        map_of(s.drop_last()).insert(s.last().0, s.last().1)
    }
}

/// `map_of(s)` holds a key exactly when some pair of `s` carries it.
pub proof fn lemma_map_of_contains(s: Seq<(Seq<char>, Seq<char>)>, k: Seq<char>)
    ensures
        map_of(s).contains_key(k) <==> exists|i: int|
            0 <= i < s.len() && (#[trigger] s[i]).0 == k,
    decreases s.len(),
{
    if s.len() > 0 {
        lemma_map_of_contains(s.drop_last(), k);
        if map_of(s).contains_key(k) {
            if s.last().0 != k {
                let t = s.drop_last();
                let i = choose|i: int| 0 <= i < t.len() && (#[trigger] t[i]).0 == k;
                assert(s[i].0 == k);
            }
        } else {
            assert(forall|i: int| 0 <= i < s.len() - 1 ==> s.drop_last()[i] == s[i]);
        }
    }
}

/// With pairwise-distinct keys, the map holds exactly one key per
/// pair.
pub proof fn lemma_map_of_dom_len(s: Seq<(Seq<char>, Seq<char>)>)
    requires
        forall|i: int, j: int| 0 <= i < j < s.len() ==> (#[trigger] s[i]).0 != (#[trigger] s[j]).0,
    ensures
        map_of(s).dom().finite(),
        map_of(s).dom().len() == s.len(),
    decreases s.len(),
{
    if s.len() > 0 {
        let t = s.drop_last();
        assert(forall|i: int| 0 <= i < t.len() ==> t[i] == s[i]);
        lemma_map_of_dom_len(t);
        lemma_map_of_contains(t, s.last().0);
        assert(!map_of(t).contains_key(s.last().0));
        assert(map_of(s).dom() =~= map_of(t).dom().insert(s.last().0));
    }
}

/// Where the pairs after position `i` carry other keys, the map reads
/// pair `i`'s value at pair `i`'s key.
pub proof fn lemma_map_of_index(s: Seq<(Seq<char>, Seq<char>)>, i: int)
    requires
        0 <= i < s.len(),
        forall|j: int| i < j < s.len() ==> (#[trigger] s[j]).0 != s[i].0,
    ensures
        map_of(s).contains_key(s[i].0),
        map_of(s)[s[i].0] == s[i].1,
    decreases s.len(),
{
    if i == s.len() - 1 {
    } else {
        assert(forall|j: int| 0 <= j < s.len() - 1 ==> s.drop_last()[j] == s[j]);
        lemma_map_of_index(s.drop_last(), i);
    }
}

/// Replacing the pair at `i` by one with the same key updates the map
/// at that key, provided no later pair carries it.
proof fn lemma_map_of_update(s: Seq<(Seq<char>, Seq<char>)>, i: int, v: Seq<char>)
    requires
        0 <= i < s.len(),
        forall|j: int| i < j < s.len() ==> (#[trigger] s[j]).0 != s[i].0,
    ensures
        map_of(s.update(i, (s[i].0, v))) == map_of(s).insert(s[i].0, v),
    decreases s.len(),
{
    let t = s.update(i, (s[i].0, v));
    if i == s.len() - 1 {
        assert(t.drop_last() =~= s.drop_last());
        assert(map_of(t) =~= map_of(s).insert(s[i].0, v));
    } else {
        assert(t.drop_last() =~= s.drop_last().update(i, (s[i].0, v)));
        assert(forall|j: int| 0 <= j < s.len() - 1 ==> s.drop_last()[j] == s[j]);
        lemma_map_of_update(s.drop_last(), i, v);
        assert(map_of(t) == map_of(t.drop_last()).insert(t.last().0, t.last().1));
        assert(t.last() == s.last());
        assert(map_of(t) =~= map_of(s).insert(s[i].0, v));
    }
}

/// A mapping from configuration keys to raw string values. Keys are
/// unique; an insert with an existing key overwrites its value.
#[derive(Debug)]
pub struct KvMap {
    entries: Vec<(String, String)>,
}

impl View for KvMap {
    type V = Map<Seq<char>, Seq<char>>;

    open spec fn view(&self) -> Map<Seq<char>, Seq<char>> {
        map_of(self.kvs())
    }
}

impl KvMap {
    /// The key-value pairs in insertion order, as character sequences.
    pub closed spec fn kvs(&self) -> Seq<(Seq<char>, Seq<char>)> {
        self.entries@.map_values(|p: (String, String)| (p.0@, p.1@))
    }

    /// Keys are pairwise distinct.
    pub open spec fn wf(&self) -> bool {
        forall|i: int, j: int|
            0 <= i < j < self.kvs().len() ==> (#[trigger] self.kvs()[i]).0 != (
            #[trigger] self.kvs()[j]).0
    }

    /// An empty mapping.
    pub fn new() -> (r: KvMap)
        ensures
            r.wf(),
            r@ == Map::<Seq<char>, Seq<char>>::empty(),
            r.kvs().len() == 0,
    {
        KvMap { entries: Vec::new() }
    }

    /// Number of keys in the mapping.
    pub fn len(&self) -> (r: usize)
        ensures
            r == self.kvs().len(),
            self.wf() ==> r == self@.dom().len(),
    {
        proof {
            if self.wf() {
                lemma_map_of_dom_len(self.kvs());
            }
        }
        self.entries.len()
    }

    /// The key of the pair at position `i`.
    pub fn key_at(&self, i: usize) -> (r: &String)
        requires
            i < self.kvs().len(),
        ensures
            r@ == self.kvs()[i as int].0,
    {
        &self.entries[i].0
    }

    /// The value of the pair at position `i`.
    pub fn value_at(&self, i: usize) -> (r: &String)
        requires
            i < self.kvs().len(),
        ensures
            r@ == self.kvs()[i as int].1,
    {
        &self.entries[i].1
    }

    /// Insert `value` under `key`, overwriting any earlier value.
    pub fn insert(&mut self, key: String, value: String)
        requires
            old(self).wf(),
        ensures
            final(self).wf(),
            final(self)@ == old(self)@.insert(key@, value@),
            final(self).kvs().len() <= old(self).kvs().len() + 1,
    {
        let n = self.entries.len();
        let mut i: usize = 0;
        while i < n
            invariant
                0 <= i <= n,
                n == self.kvs().len(),
                self == old(self),
                self.wf(),
                forall|j: int| 0 <= j < i ==> (#[trigger] self.kvs()[j]).0 != key@,
            decreases n - i,
        {
            if str_eq(self.entries[i].0.as_str(), key.as_str()) {
                proof {
                    assert(self.kvs()[i as int].0 == key@);
                    lemma_map_of_update(self.kvs(), i as int, value@);
                }
                self.entries[i] = (key, value);
                proof {
                    assert(self.kvs() =~= old(self).kvs().update(
                        i as int,
                        (old(self).kvs()[i as int].0, value@),
                    ));
                    assert(forall|m: int|
                        0 <= m < self.kvs().len() ==> (#[trigger] self.kvs()[m]).0 == old(
                            self,
                        ).kvs()[m].0);
                }
                return;
            }
            i += 1;
        }
        self.entries.push((key, value));
        proof {
            assert(self.kvs() =~= old(self).kvs().push((key@, value@)));
            assert(self.kvs().drop_last() =~= old(self).kvs());
            lemma_map_of_contains(old(self).kvs(), key@);
        }
    }

    /// Look up the value stored under `key`.
    pub fn get(&self, key: &str) -> (r: Option<&String>)
        requires
            self.wf(),
        ensures
            match r {
                Some(v) => self@.contains_key(key@) && v@ == self@[key@],
                None => !self@.contains_key(key@),
            },
    {
        let n = self.entries.len();
        let mut i: usize = 0;
        while i < n
            invariant
                0 <= i <= n,
                n == self.kvs().len(),
                self.wf(),
                forall|j: int| 0 <= j < i ==> (#[trigger] self.kvs()[j]).0 != key@,
            decreases n - i,
        {
            if str_eq(self.entries[i].0.as_str(), key) {
                proof {
                    assert(self.kvs()[i as int].0 == key@);
                    lemma_map_of_index(self.kvs(), i as int);
                }
                return Some(&self.entries[i].1);
            }
            i += 1;
        }
        proof {
            lemma_map_of_contains(self.kvs(), key@);
        }
        None
    }

    /// Whether `key` is present.
    pub fn contains(&self, key: &str) -> (r: bool)
        requires
            self.wf(),
        ensures
            r == self@.contains_key(key@),
    {
        match self.get(key) {
            Some(_) => true,
            None => false,
        }
    }
}

/// Combine the file-sourced mapping with the argument-sourced mapping;
/// argument values win on key collisions, file-only keys are kept.
pub fn merge(file_kv: &KvMap, arg_kv: &KvMap) -> (r: KvMap)
    requires
        file_kv.wf(),
        arg_kv.wf(),
    ensures
        r.wf(),
        r@ == file_kv@.union_prefer_right(arg_kv@),
{
    let mut r = KvMap::new();
    let n = file_kv.len();
    let mut i: usize = 0;
    while i < n
        invariant
            0 <= i <= n,
            n == file_kv.kvs().len(),
            file_kv.wf(),
            r.wf(),
            r@ == map_of(file_kv.kvs().take(i as int)),
        decreases n - i,
    {
        let k = file_kv.key_at(i).clone();
        let v = file_kv.value_at(i).clone();
        r.insert(k, v);
        proof {
            assert(file_kv.kvs().take(i as int + 1).drop_last() =~= file_kv.kvs().take(i as int));
        }
        i += 1;
    }
    proof {
        assert(file_kv.kvs().take(n as int) =~= file_kv.kvs());
    }
    let m = arg_kv.len();
    let mut j: usize = 0;
    proof {
        assert(file_kv@.union_prefer_right(map_of(arg_kv.kvs().take(0))) =~= file_kv@);
    }
    while j < m
        invariant
            0 <= j <= m,
            m == arg_kv.kvs().len(),
            arg_kv.wf(),
            r.wf(),
            r@ == file_kv@.union_prefer_right(map_of(arg_kv.kvs().take(j as int))),
        decreases m - j,
    {
        let k = arg_kv.key_at(j).clone();
        let v = arg_kv.value_at(j).clone();
        r.insert(k, v);
        proof {
            let taken = arg_kv.kvs().take(j as int);
            let pair = arg_kv.kvs()[j as int];
            assert(arg_kv.kvs().take(j as int + 1).drop_last() =~= taken);
            assert(map_of(arg_kv.kvs().take(j as int + 1)) == map_of(taken).insert(
                pair.0,
                pair.1,
            ));
            assert(file_kv@.union_prefer_right(map_of(taken).insert(pair.0, pair.1))
                =~= file_kv@.union_prefer_right(map_of(taken)).insert(pair.0, pair.1));
        }
        j += 1;
    }
    proof {
        assert(arg_kv.kvs().take(m as int) =~= arg_kv.kvs());
    }
    r
}

/// Law of the precedence merge: on a key both sides hold, the merged
/// mapping reads the argument-sourced value; on a key only the file
/// holds, the file-sourced value; and it holds no other keys.
pub proof fn lemma_merge_precedence(
    file_m: Map<Seq<char>, Seq<char>>,
    arg_m: Map<Seq<char>, Seq<char>>,
    k: Seq<char>,
)
    ensures
        arg_m.contains_key(k) ==> file_m.union_prefer_right(arg_m).contains_key(k)
            && file_m.union_prefer_right(arg_m)[k] == arg_m[k],
        !arg_m.contains_key(k) && file_m.contains_key(k) ==> file_m.union_prefer_right(
            arg_m,
        ).contains_key(k) && file_m.union_prefer_right(arg_m)[k] == file_m[k],
        !arg_m.contains_key(k) && !file_m.contains_key(k) ==> !file_m.union_prefer_right(
            arg_m,
        ).contains_key(k),
{
}

} // verus!
