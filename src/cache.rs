//! A bounded cache of extracted document text, keyed by document path. It
//! inserts only while it has room and never evicts or invalidates an entry.
use vstd::prelude::*;
use crate::convert::chars_of;
use crate::text::chars_eq;

verus! {

/// The most entries a cache holds.
pub const CACHE_CAPACITY: usize = 100;

/// The text stored under `key` in `s`: that of its first entry with that key.
pub open spec fn lookup(s: Seq<(Seq<char>, Seq<char>)>, key: Seq<char>) -> Option<Seq<char>>
    decreases s.len(),
{
    if s.len() == 0 {
        None
    } else if s[0].0 == key {
        Some(s[0].1)
    } else {
        lookup(s.drop_first(), key)
    }
}

/// The index of the entry with key `key` in `s`, or `s.len()` when none has it.
pub open spec fn index_of(s: Seq<(Seq<char>, Seq<char>)>, key: Seq<char>) -> int
    decreases s.len(),
{
    if s.len() == 0 {
        0
    } else if s[0].0 == key {
        0
    } else {
        1 + index_of(s.drop_first(), key)
    }
}

/// The entries after a `put` of `text` under `key`: stored (replacing the text
/// of an entry with that key) when fewer than `CACHE_CAPACITY` entries are
/// held, and left as they were otherwise.
pub open spec fn after_put(s: Seq<(Seq<char>, Seq<char>)>, key: Seq<char>, text: Seq<char>) -> Seq<
    (Seq<char>, Seq<char>),
> {
    if s.len() < CACHE_CAPACITY {
        let i = index_of(s, key);
        if i < s.len() {
            s.update(i, (key, text))
        } else {
            s.push((key, text))
        }
    } else {
        s
    }
}

/// Document text cache.
pub struct TextCache {
    entries: Vec<(String, String)>,
}

impl View for TextCache {
    type V = Seq<(Seq<char>, Seq<char>)>;

    closed spec fn view(&self) -> Seq<(Seq<char>, Seq<char>)> {
        Seq::new(self.entries@.len(), |i: int| (self.entries@[i].0@, self.entries@[i].1@))
    }
}

proof fn lemma_index_of_bounds(s: Seq<(Seq<char>, Seq<char>)>, key: Seq<char>)
    ensures
        0 <= index_of(s, key) <= s.len(),
        index_of(s, key) < s.len() ==> s[index_of(s, key)].0 == key,
        index_of(s, key) < s.len() ==> lookup(s, key) == Some(s[index_of(s, key)].1),
        index_of(s, key) == s.len() <==> lookup(s, key) is None,
        forall|j: int| 0 <= j < index_of(s, key) ==> s[j].0 != key,
    decreases s.len(),
{
    if s.len() > 0 && s[0].0 != key {
        lemma_index_of_bounds(s.drop_first(), key);
        assert forall|j: int| 0 <= j < index_of(s, key) implies s[j].0 != key by {
            if j > 0 {
                assert(s[j] == s.drop_first()[j - 1]);
            }
        }
    }
}

impl TextCache {
    /// The cache is within its capacity.
    pub open spec fn wf(&self) -> bool {
        self@.len() <= CACHE_CAPACITY
    }

    /// An empty cache.
    pub fn new() -> (r: TextCache)
        ensures
            r@ == Seq::<(Seq<char>, Seq<char>)>::empty(),
            r.wf(),
    {
        let r = TextCache { entries: Vec::new() };
        assert(r@ =~= Seq::<(Seq<char>, Seq<char>)>::empty());
        r
    }

    /// The number of entries held.
    pub fn len(&self) -> (r: usize)
        ensures
            r == self@.len(),
    {
        self.entries.len()
    }

    fn position(&self, key: &str) -> (r: usize)
        ensures
            r == index_of(self@, key@),
    {
        let k = chars_of(key);
        let mut i: usize = 0;
        assert(self@.skip(0) =~= self@);
        while i < self.entries.len()
            invariant
                k@ == key@,
                0 <= i <= self@.len(),
                index_of(self@, key@) == i + index_of(self@.skip(i as int), key@),
            decreases self@.len() - i,
        {
            assert(self@.skip(i as int).drop_first() =~= self@.skip(i + 1));
            if chars_eq(&chars_of(self.entries[i].0.as_str()), &k) {
                return i;
            }
            i = i + 1;
        }
        i
    }

    /// The text stored under `key`, if any.
    pub fn get(&self, key: &str) -> (r: Option<String>)
        ensures
            r matches Some(t) ==> lookup(self@, key@) == Some(t@),
            r is None <==> lookup(self@, key@) is None,
    {
        proof {
            lemma_index_of_bounds(self@, key@);
            assert(self@.skip(0) =~= self@);
        }
        let i = self.position(key);
        if i < self.entries.len() {
            Some(self.entries[i].1.clone())
        } else {
            None
        }
    }

    /// Stores `text` under `key` while the cache has room.
    pub fn put(&mut self, key: String, text: String)
        requires
            old(self).wf(),
        ensures
            final(self)@ == after_put(old(self)@, key@, text@),
            final(self).wf(),
    {
        if self.entries.len() < CACHE_CAPACITY {
            proof {
                lemma_index_of_bounds(self@, key@);
                assert(self@.skip(0) =~= self@);
            }
            let i = self.position(key.as_str());
            let ghost prev = self@;
            if i < self.entries.len() {
                self.entries.set(i, (key, text));
                assert(self@ =~= prev.update(i as int, (key@, text@)));
            } else {
                self.entries.push((key, text));
                assert(self@ =~= prev.push((key@, text@)));
            }
        }
    }
}

/// Whatever is put, a cache never holds more than `CACHE_CAPACITY` entries.
pub proof fn lemma_cache_within_capacity(
    s: Seq<(Seq<char>, Seq<char>)>,
    key: Seq<char>,
    text: Seq<char>,
)
    requires
        s.len() <= CACHE_CAPACITY,
    ensures
        after_put(s, key, text).len() <= CACHE_CAPACITY,
{
    lemma_index_of_bounds(s, key);
}

/// Once the cache is full, a document that it does not hold is not stored by
/// a `put`, and the entries stay as they were.
pub proof fn lemma_full_cache_stores_nothing(
    s: Seq<(Seq<char>, Seq<char>)>,
    key: Seq<char>,
    text: Seq<char>,
)
    requires
        s.len() == CACHE_CAPACITY,
        lookup(s, key) is None,
    ensures
        lookup(after_put(s, key, text), key) is None,
        after_put(s, key, text) == s,
{
}

/// While the cache has room, a `put` makes the text retrievable under its key.
pub proof fn lemma_put_then_get(s: Seq<(Seq<char>, Seq<char>)>, key: Seq<char>, text: Seq<char>)
    requires
        s.len() < CACHE_CAPACITY,
    ensures
        lookup(after_put(s, key, text), key) == Some(text),
{
    lemma_index_of_bounds(s, key);
    let t = after_put(s, key, text);
    let i = index_of(s, key);
    lemma_index_of_bounds(t, key);
    if i < s.len() {
        assert(t[i].0 == key);
        assert forall|j: int| 0 <= j < i implies t[j].0 != key by {
            assert(t[j] == s[j]);
        }
        if index_of(t, key) < i {
            assert(t[index_of(t, key)] == s[index_of(t, key)]);
        }
    } else {
        assert(t[s.len() as int].0 == key);
        if index_of(t, key) < s.len() {
            assert(t[index_of(t, key)] == s[index_of(t, key)]);
        }
    }
}

} // verus!
