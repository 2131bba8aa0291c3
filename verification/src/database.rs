//! A key-value store spoken to in datagrams.
//!
//! A datagram with an `=` inserts: what stands before the first `=` is the
//! key, what follows it the value. A datagram without one asks for a key
//! and is answered with `key=value`. The key `version` is the store's own
//! and cannot be changed.

use vstd::prelude::*;
use vstd::slice::{slice_subrange, slice_to_vec};
use vstd::string::*;
use vstd::utf8::*;
use crate::text::decode_text;

verus! {

/// The size of a datagram: longer answers are cut to it.
pub const BUFF_SIZE: usize = 1000;

/// The key under which the store reports its version.
pub const VERSION_KEY: &'static str = "version";

/// The version that the store reports.
pub const VERSION: &'static str = "1.0";

/// The byte `=`.
pub const EQUAL_SIGN: u8 = 0x3d;

/// The index of the first `=` among the first `sz` bytes of `buff`, if
/// there is one.
pub fn index_of_equal(buff: &[u8], sz: usize) -> (pos: Option<usize>)
    requires
        sz <= buff@.len(),
    ensures
        match pos {
            Some(i) => {
                &&& i < sz
                &&& buff@[i as int] == EQUAL_SIGN
                &&& forall|j: int| 0 <= j < i ==> buff@[j] != EQUAL_SIGN
            },
            None => forall|j: int| 0 <= j < sz ==> buff@[j] != EQUAL_SIGN,
        },
{
    let mut i: usize = 0;
    while i < sz
        invariant
            0 <= i <= sz <= buff@.len(),
            forall|j: int| 0 <= j < i ==> buff@[j] != EQUAL_SIGN,
        decreases sz - i,
    {
        if buff[i] == EQUAL_SIGN {
            return Some(i);
        }
        i += 1;
    }
    None
}

/// The map that a list of entries stands for: a later entry for a key
/// overrides an earlier one.
pub open spec fn listed(entries: Seq<(String, String)>) -> Map<Seq<char>, Seq<char>>
    decreases entries.len(),
{
    if entries.len() == 0 {
        Map::empty()
    } else {
        listed(entries.drop_last()).insert(entries.last().0@, entries.last().1@)
    }
}

/// The entry at `i` is the last one for `key`, and so the one that counts.
proof fn lemma_last_entry_counts(entries: Seq<(String, String)>, i: int, key: Seq<char>)
    requires
        0 <= i < entries.len(),
        entries[i].0@ == key,
        forall|j: int| i < j < entries.len() ==> (#[trigger] entries[j]).0@ != key,
    ensures
        listed(entries).contains_key(key),
        listed(entries)[key] == entries[i].1@,
        forall|value: String, k: String|
            k@ == key ==> #[trigger] listed(entries.update(i, (k, value))) == listed(
                entries,
            ).insert(key, value@),
    decreases entries.len(),
{
    let front = entries.drop_last();
    let last = entries.last();
    if i == entries.len() - 1 {
        assert forall|value: String, k: String| k@ == key implies #[trigger] listed(
            entries.update(i, (k, value)),
        ) == listed(entries).insert(key, value@) by {
            let changed = entries.update(i, (k, value));
            assert(changed.drop_last() =~= front);
            assert(listed(changed) =~= listed(entries).insert(key, value@));
        }
    } else {
        assert(entries[entries.len() - 1].0@ != key);
        assert forall|j: int| i < j < front.len() implies (#[trigger] front[j]).0@ != key by {
            assert(entries[j].0@ != key);
        }
        lemma_last_entry_counts(front, i, key);
        assert forall|value: String, k: String| k@ == key implies #[trigger] listed(
            entries.update(i, (k, value)),
        ) == listed(entries).insert(key, value@) by {
            let changed = entries.update(i, (k, value));
            assert(changed.drop_last() =~= front.update(i, (k, value)));
            assert(changed.last() == last);
            assert(listed(front.update(i, (k, value))) == listed(front).insert(key, value@));
            assert(listed(changed) =~= listed(entries).insert(key, value@));
        }
    }
}

/// A key that no entry carries is not in the map.
proof fn lemma_absent_key(entries: Seq<(String, String)>, key: Seq<char>)
    requires
        forall|j: int| 0 <= j < entries.len() ==> (#[trigger] entries[j]).0@ != key,
    ensures
        !listed(entries).contains_key(key),
    decreases entries.len(),
{
    if entries.len() > 0 {
        let front = entries.drop_last();
        assert(entries[entries.len() - 1].0@ != key);
        assert forall|j: int| 0 <= j < front.len() implies (#[trigger] front[j]).0@ != key by {
            assert(entries[j].0@ != key);
        }
        lemma_absent_key(front, key);
    }
}

/// The store: a map from keys to values.
pub struct Store {
    entries: Vec<(String, String)>,
}

impl View for Store {
    type V = Map<Seq<char>, Seq<char>>;

    closed spec fn view(&self) -> Map<Seq<char>, Seq<char>> {
        listed(self.entries@)
    }
}

/// The value that a store answers for a key: the one recorded, or the
/// empty text.
pub open spec fn value_of(store: Map<Seq<char>, Seq<char>>, key: Seq<char>) -> Seq<char> {
    if store.contains_key(key) {
        store[key]
    } else {
        Seq::empty()
    }
}

/// The store after the insertion of `key` with `value`: the version stays
/// as it is, every other key takes the new value.
pub open spec fn inserted(
    store: Map<Seq<char>, Seq<char>>,
    key: Seq<char>,
    value: Seq<char>,
) -> Map<Seq<char>, Seq<char>> {
    if key == VERSION_KEY@ {
        store
    } else {
        store.insert(key, value)
    }
}

/// The bytes that answer a query for `key`: `key=value`, cut to the size
/// of a datagram.
pub open spec fn answer(store: Map<Seq<char>, Seq<char>>, key: Seq<char>) -> Seq<u8> {
    let full = encode_utf8(key + "="@ + value_of(store, key));
    if full.len() > BUFF_SIZE {
        full.take(BUFF_SIZE as int)
    } else {
        full
    }
}

/// No insertion touches the version: a store that reports it goes on
/// reporting the same.
pub proof fn lemma_version_is_fixed(
    store: Map<Seq<char>, Seq<char>>,
    key: Seq<char>,
    value: Seq<char>,
)
    ensures
        value_of(inserted(store, key, value), VERSION_KEY@) == value_of(store, VERSION_KEY@),
        answer(inserted(store, key, value), VERSION_KEY@) == answer(store, VERSION_KEY@),
        key != VERSION_KEY@ ==> value_of(inserted(store, key, value), key) == value,
{
}

impl Store {
    /// A store that holds its version and nothing else.
    pub fn new() -> (store: Store)
        ensures
            store@ == Map::<Seq<char>, Seq<char>>::empty().insert(VERSION_KEY@, VERSION@),
    {
        let mut entries: Vec<(String, String)> = Vec::new();
        entries.push((String::from_str(VERSION_KEY), String::from_str(VERSION)));
        assert(entries@.drop_last() =~= Seq::<(String, String)>::empty());
        assert(listed(entries@) == listed(entries@.drop_last()).insert(
            entries@.last().0@,
            entries@.last().1@,
        ));
        Store { entries }
    }

    /// The index of the entry that counts for `key`.
    fn position(&self, key: &String) -> (pos: Option<usize>)
        ensures
            match pos {
                Some(i) => {
                    &&& i < self.entries@.len()
                    &&& self.entries@[i as int].0@ == key@
                    &&& forall|j: int|
                        i < j < self.entries@.len() ==> (#[trigger] self.entries@[j]).0@ != key@
                    &&& self@.contains_key(key@)
                    &&& self@[key@] == self.entries@[i as int].1@
                },
                None => !self@.contains_key(key@),
            },
    {
        let mut i: usize = self.entries.len();
        while i > 0
            invariant
                0 <= i <= self.entries@.len(),
                forall|j: int| i <= j < self.entries@.len() ==> (#[trigger] self.entries@[j]).0@
                    != key@,
            decreases i,
        {
            i -= 1;
            if self.entries[i].0 == *key {
                proof {
                    lemma_last_entry_counts(self.entries@, i as int, key@);
                }
                return Some(i);
            }
        }
        proof {
            lemma_absent_key(self.entries@, key@);
        }
        None
    }

    /// The value recorded for `key`, if there is one.
    pub fn get(&self, key: &str) -> (value: Option<String>)
        ensures
            match value {
                Some(v) => self@.contains_key(key@) && v@ == self@[key@],
                None => !self@.contains_key(key@),
            },
    {
        let key = String::from_str(key);
        match self.position(&key) {
            Some(i) => Some(self.entries[i].1.clone()),
            None => None,
        }
    }

    /// Records `value` for `key`, whatever the key.
    fn put(&mut self, key: String, value: String)
        ensures
            final(self)@ == old(self)@.insert(key@, value@),
    {
        match self.position(&key) {
            Some(i) => {
                proof {
                    lemma_last_entry_counts(self.entries@, i as int, key@);
                }
                self.entries.set(i, (key, value));
            },
            None => {
                self.entries.push((key, value));
                assert(self.entries@.drop_last() =~= old(self).entries@);
            },
        }
    }
}

/// Carries out an insertion: `buff` is the datagram and `eq_pos` the index
/// of its first `=`. The key is the text before it and the value the text
/// after it; both must be UTF-8. An insertion under the version's key is
/// ignored.
pub fn insert(buff: &[u8], eq_pos: usize, store: &mut Store)
    requires
        eq_pos < buff@.len(),
        valid_utf8(buff@.subrange(0, eq_pos as int)),
        valid_utf8(buff@.subrange(eq_pos + 1, buff@.len() as int)),
    ensures
        final(store)@ == inserted(
            old(store)@,
            decode_utf8(buff@.subrange(0, eq_pos as int)),
            decode_utf8(buff@.subrange(eq_pos + 1, buff@.len() as int)),
        ),
{
    let end = buff.len();
    let key = decode_text(slice_to_vec(slice_subrange(buff, 0, eq_pos)));
    let value = decode_text(slice_to_vec(slice_subrange(buff, eq_pos + 1, end)));
    match (key, value) {
        (Some(key), Some(value)) => {
            if key == String::from_str(VERSION_KEY) {
                return ;
            }
            store.put(key, value);
        },
        _ => {},
    }
}

/// Answers a query for `key`, as [`answer`] says.
pub fn query(key: &str, store: &Store) -> (reply: Vec<u8>)
    ensures
        reply@ == answer(store@, key@),
{
    let mut line = String::from_str(key);
    line.append("=");
    match store.get(key) {
        Some(value) => {
            line.append(value.as_str());
        },
        None => {
            assert(line@ + Seq::<char>::empty() =~= line@);
        },
    }
    let bytes = line.as_str().as_bytes();
    let total = if bytes.len() > BUFF_SIZE {
        BUFF_SIZE
    } else {
        bytes.len()
    };
    let reply = slice_to_vec(slice_subrange(bytes, 0, total));
    assert(reply@ =~= answer(store@, key@));
    reply
}

/// What a datagram asks for.
pub enum Request {
    /// Record the value under the key.
    Insert(Seq<char>, Seq<char>),
    /// Report the value of the key.
    Query(Seq<char>),
    /// Nothing that can be read: some part of it is not UTF-8.
    Malformed,
}

/// Reads a datagram: with an `=` it inserts, split at the first one;
/// without, it is a query for the key that it spells.
pub open spec fn request_of(datagram: Seq<u8>) -> Request {
    match datagram.index_of_first(EQUAL_SIGN) {
        Some(i) => {
            let key = datagram.subrange(0, i);
            let value = datagram.subrange(i + 1, datagram.len() as int);
            if valid_utf8(key) && valid_utf8(value) {
                Request::Insert(decode_utf8(key), decode_utf8(value))
            } else {
                Request::Malformed
            }
        },
        None => if valid_utf8(datagram) {
            Request::Query(decode_utf8(datagram))
        } else {
            Request::Malformed
        },
    }
}

/// A datagram that could not be read.
#[derive(Clone, Copy, Debug, PartialEq, Eq, Structural)]
pub struct Malformed;

/// Serves one datagram: carries out an insertion, which is not answered,
/// or answers a query. A datagram that cannot be read changes nothing.
pub fn serve(store: &mut Store, datagram: &[u8]) -> (reply: Result<Option<Vec<u8>>, Malformed>)
    ensures
        match request_of(datagram@) {
            Request::Insert(key, value) => {
                &&& reply == Ok::<Option<Vec<u8>>, Malformed>(None)
                &&& final(store)@ == inserted(old(store)@, key, value)
            },
            Request::Query(key) => {
                &&& reply matches Ok(Some(bytes))
                &&& bytes@ == answer(old(store)@, key)
                &&& final(store)@ == old(store)@
            },
            Request::Malformed => reply is Err && final(store)@ == old(store)@,
        },
{
    proof {
        datagram@.index_of_first_ensures(EQUAL_SIGN);
    }
    match index_of_equal(datagram, datagram.len()) {
        Some(i) => {
            proof {
                let k = datagram@.index_of_first(EQUAL_SIGN).unwrap();
                assert(k == i) by {
                    if k < i {
                        assert(datagram@[k] != EQUAL_SIGN);
                    }
                }
            }
            let key_ok = decode_text(slice_to_vec(slice_subrange(datagram, 0, i))).is_some();
            let value_ok = decode_text(
                slice_to_vec(slice_subrange(datagram, i + 1, datagram.len())),
            ).is_some();
            if key_ok && value_ok {
                insert(datagram, i, store);
                Ok(None)
            } else {
                Err(Malformed)
            }
        },
        None => {
            proof {
                if datagram@.contains(EQUAL_SIGN) {
                    let j = choose|j: int| 0 <= j < datagram@.len() && datagram@[j] == EQUAL_SIGN;
                    assert(datagram@[j] != EQUAL_SIGN);
                }
            }
            match decode_text(slice_to_vec(datagram)) {
                Some(key) => Ok(Some(query(key.as_str(), store))),
                None => Err(Malformed),
            }
        },
    }
}

} // verus!
