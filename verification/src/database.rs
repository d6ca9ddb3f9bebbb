//! The store: an insert-only mapping from keys to values.
//!
//! A store is modelled by its entries in the order in which they were stored.
//! No key is stored twice, so the entries are a mapping as well as a list.

use vstd::hash_map::StringHashMap;
use vstd::prelude::*;

verus! {

/// Why a store operation failed.
#[derive(Debug, Clone, Copy, PartialEq, Eq, Structural)]
pub enum DBError {
    /// The store could not be reached.
    Locked,
    /// Nothing is stored under the key.
    NoData,
    /// The key is stored already.
    Exists,
}

/// The value stored under `key`, if there is one.
pub open spec fn lookup(entries: Seq<(Seq<char>, Seq<char>)>, key: Seq<char>) -> Option<Seq<char>>
    decreases entries.len(),
{
    if entries.len() == 0 {
        None
    } else if entries.last().0 == key {
        Some(entries.last().1)
    } else {
        lookup(entries.drop_last(), key)
    }
}

/// The keys of the entries, in the order of the entries.
pub open spec fn keys_of(entries: Seq<(Seq<char>, Seq<char>)>) -> Seq<Seq<char>> {
    Seq::new(entries.len(), |i: int| entries[i].0)
}

/// No two entries have the same key.
pub open spec fn distinct_keys(entries: Seq<(Seq<char>, Seq<char>)>) -> bool {
    keys_of(entries).no_duplicates()
}

/// What `get` answers for `key`.
pub open spec fn got(entries: Seq<(Seq<char>, Seq<char>)>, key: Seq<char>) -> Result<
    Seq<char>,
    DBError,
> {
    match lookup(entries, key) {
        Some(value) => Ok(value),
        None => Err(DBError::NoData),
    }
}

/// What `put` answers for `key`: the key itself, unless it is stored already.
pub open spec fn put_answer(entries: Seq<(Seq<char>, Seq<char>)>, key: Seq<char>) -> Result<
    Seq<char>,
    DBError,
> {
    if lookup(entries, key) is Some {
        Err(DBError::Exists)
    } else {
        Ok(key)
    }
}

/// The entries after `put`: a new key is appended with its value, a stored
/// key changes nothing.
pub open spec fn after_put(
    entries: Seq<(Seq<char>, Seq<char>)>,
    key: Seq<char>,
    value: Seq<char>,
) -> Seq<(Seq<char>, Seq<char>)> {
    if lookup(entries, key) is Some {
        entries
    } else {
        entries.push((key, value))
    }
}

/// The entries after a run of `put` calls on an empty store, one call for
/// each pair of `puts`, in order.
pub open spec fn replay(puts: Seq<(Seq<char>, Seq<char>)>) -> Seq<(Seq<char>, Seq<char>)>
    decreases puts.len(),
{
    if puts.len() == 0 {
        Seq::empty()
    } else {
        after_put(replay(puts.drop_last()), puts.last().0, puts.last().1)
    }
}

/// A key has a value exactly when it is among the keys of the entries.
pub proof fn lemma_lookup_keys(entries: Seq<(Seq<char>, Seq<char>)>, key: Seq<char>)
    ensures
        lookup(entries, key) is Some <==> keys_of(entries).contains(key),
    decreases entries.len(),
{
    if entries.len() > 0 {
        let rest = entries.drop_last();
        lemma_lookup_keys(rest, key);
        if entries.last().0 == key {
            assert(keys_of(entries)[entries.len() - 1] == key);
        } else if keys_of(rest).contains(key) {
            let i = choose|i: int| 0 <= i < keys_of(rest).len() && keys_of(rest)[i] == key;
            assert(keys_of(entries)[i] == key);
        } else if keys_of(entries).contains(key) {
            let i = choose|i: int| 0 <= i < keys_of(entries).len() && keys_of(entries)[i] == key;
            assert(keys_of(rest)[i] == key);
        }
    }
}

/// A key that was not stored before is stored by `put`, and `get` then
/// returns the value that was put.
pub proof fn lemma_put_then_get(
    entries: Seq<(Seq<char>, Seq<char>)>,
    key: Seq<char>,
    value: Seq<char>,
)
    requires
        lookup(entries, key) is None,
    ensures
        put_answer(entries, key) == Ok::<Seq<char>, DBError>(key),
        got(after_put(entries, key, value), key) == Ok::<Seq<char>, DBError>(value),
{
    assert(entries.push((key, value)).last() == (key, value));
}

/// A second `put` under a stored key fails with `Exists` and leaves the
/// entries as they are, so that `get` still returns the first value.
pub proof fn lemma_put_again(
    entries: Seq<(Seq<char>, Seq<char>)>,
    key: Seq<char>,
    first: Seq<char>,
    second: Seq<char>,
)
    requires
        lookup(entries, key) is None,
    ensures
        ({
            let stored = after_put(entries, key, first);
            &&& put_answer(stored, key) == Err::<Seq<char>, DBError>(DBError::Exists)
            &&& after_put(stored, key, second) == stored
            &&& got(after_put(stored, key, second), key) == Ok::<Seq<char>, DBError>(first)
        }),
{
    lemma_put_then_get(entries, key, first);
}

/// Whatever the entries are, `put` under a stored key fails with `Exists` and
/// changes nothing.
pub proof fn lemma_put_stored(
    entries: Seq<(Seq<char>, Seq<char>)>,
    key: Seq<char>,
    value: Seq<char>,
)
    requires
        lookup(entries, key) is Some,
    ensures
        put_answer(entries, key) == Err::<Seq<char>, DBError>(DBError::Exists),
        after_put(entries, key, value) == entries,
{
}

/// `put` leaves the values of all other keys as they are.
pub proof fn lemma_put_keeps_others(
    entries: Seq<(Seq<char>, Seq<char>)>,
    key: Seq<char>,
    value: Seq<char>,
    other: Seq<char>,
)
    requires
        other != key,
    ensures
        lookup(after_put(entries, key, value), other) == lookup(entries, other),
{
    if lookup(entries, key) is None {
        assert(entries.push((key, value)).drop_last() =~= entries);
    }
}

/// `put` keeps the keys distinct.
pub proof fn lemma_put_keeps_distinct(
    entries: Seq<(Seq<char>, Seq<char>)>,
    key: Seq<char>,
    value: Seq<char>,
)
    requires
        distinct_keys(entries),
    ensures
        distinct_keys(after_put(entries, key, value)),
{
    if lookup(entries, key) is None {
        lemma_lookup_keys(entries, key);
        let after = entries.push((key, value));
        assert forall|i: int, j: int|
            0 <= i < keys_of(after).len() && 0 <= j < keys_of(after).len() && i != j implies keys_of(
            after,
        )[i] != keys_of(after)[j] by {
            if i < entries.len() {
                assert(keys_of(after)[i] == keys_of(entries)[i]);
            }
            if j < entries.len() {
                assert(keys_of(after)[j] == keys_of(entries)[j]);
            }
        }
    }
}

/// `get` on a key that no `put` has named returns `NoData`.
pub proof fn lemma_never_stored(puts: Seq<(Seq<char>, Seq<char>)>, key: Seq<char>)
    requires
        forall|i: int| 0 <= i < puts.len() ==> (#[trigger] puts[i]).0 != key,
    ensures
        got(replay(puts), key) == Err::<Seq<char>, DBError>(DBError::NoData),
    decreases puts.len(),
{
    if puts.len() > 0 {
        lemma_never_stored(puts.drop_last(), key);
        lemma_put_keeps_others(replay(puts.drop_last()), puts.last().0, puts.last().1, key);
    }
}

/// After `put` calls with distinct keys on an empty store, every call has
/// succeeded and the store holds exactly the pairs that were put, in the
/// order of the calls.
pub proof fn lemma_distinct_puts(puts: Seq<(Seq<char>, Seq<char>)>)
    requires
        distinct_keys(puts),
    ensures
        replay(puts) == puts,
        forall|i: int|
            0 <= i < puts.len() ==> put_answer(replay(puts.take(i)), #[trigger] puts[i].0) == Ok::<
                Seq<char>,
                DBError,
            >(puts[i].0),
    decreases puts.len(),
{
    if puts.len() > 0 {
        let rest = puts.drop_last();
        assert forall|i: int, j: int|
            0 <= i < keys_of(rest).len() && 0 <= j < keys_of(rest).len() && i != j implies keys_of(
            rest,
        )[i] != keys_of(rest)[j] by {
            assert(keys_of(rest)[i] == keys_of(puts)[i]);
            assert(keys_of(rest)[j] == keys_of(puts)[j]);
        }
        lemma_distinct_puts(rest);
        lemma_lookup_keys(rest, puts.last().0);
        if keys_of(rest).contains(puts.last().0) {
            let i = choose|i: int| 0 <= i < keys_of(rest).len() && keys_of(rest)[i] == puts.last().0;
            assert(keys_of(puts)[i] == keys_of(puts)[puts.len() - 1]);
        }
        assert(rest.push(puts.last()) =~= puts);
        assert forall|i: int| 0 <= i < puts.len() implies put_answer(
            replay(puts.take(i)),
            #[trigger] puts[i].0,
        ) == Ok::<Seq<char>, DBError>(puts[i].0) by {
            if i < rest.len() {
                assert(puts.take(i) =~= rest.take(i));
                assert(puts[i] == rest[i]);
            } else {
                assert(puts.take(i) =~= rest);
            }
        }
    }
}

/// The keys that are listed after `put` calls with distinct keys do not
/// depend on the order of the calls: two runs that put the same keys list the
/// same keys, and as many of them as there were calls.
pub proof fn lemma_listing_ignores_order(
    first: Seq<(Seq<char>, Seq<char>)>,
    second: Seq<(Seq<char>, Seq<char>)>,
)
    requires
        distinct_keys(first),
        distinct_keys(second),
        keys_of(first).to_set() == keys_of(second).to_set(),
    ensures
        keys_of(replay(first)).to_set() == keys_of(first).to_set(),
        keys_of(replay(second)).to_set() == keys_of(replay(first)).to_set(),
        keys_of(replay(first)).len() == first.len(),
        keys_of(replay(second)).len() == first.len(),
{
    lemma_distinct_puts(first);
    lemma_distinct_puts(second);
    keys_of(first).unique_seq_to_set();
    keys_of(second).unique_seq_to_set();
}

/// Two `put` calls that race for a key which is not stored: whichever comes
/// first succeeds, the other fails with `Exists`, and the store keeps the
/// value of the first.
pub proof fn lemma_put_race(
    entries: Seq<(Seq<char>, Seq<char>)>,
    key: Seq<char>,
    winner: Seq<char>,
    loser: Seq<char>,
)
    requires
        lookup(entries, key) is None,
    ensures
        put_answer(entries, key) is Ok,
        put_answer(after_put(entries, key, winner), key) == Err::<Seq<char>, DBError>(
            DBError::Exists,
        ),
        lookup(after_put(after_put(entries, key, winner), key, loser), key) == Some(winner),
{
    lemma_put_again(entries, key, winner, loser);
}

/// The characters of a text result.
pub open spec fn text_of(r: Result<String, DBError>) -> Result<Seq<char>, DBError> {
    match r {
        Ok(text) => Ok(text@),
        Err(e) => Err(e),
    }
}

/// The entries that a list of keys and a table of values stand for.
pub open spec fn entries_of(keys: Seq<String>, values: Map<Seq<char>, String>) -> Seq<
    (Seq<char>, Seq<char>),
> {
    Seq::new(keys.len(), |i: int| (keys[i]@, values[keys[i]@]@))
}

/// A key is looked up in the entries as it is in the table of values, as
/// long as the listed keys are the keys of the table.
proof fn lemma_lookup_entries(keys: Seq<String>, values: Map<Seq<char>, String>, key: Seq<char>)
    requires
        forall|i: int| 0 <= i < keys.len() ==> values.contains_key(#[trigger] keys[i]@),
        forall|k: Seq<char>|
            values.contains_key(k) ==> exists|i: int| 0 <= i < keys.len() && #[trigger] keys[i]@ == k,
    ensures
        lookup(entries_of(keys, values), key) == if values.contains_key(key) {
            Some(values[key]@)
        } else {
            None
        },
{
    let entries = entries_of(keys, values);
    lemma_lookup_prefix(keys, values, key, keys.len() as int);
    assert(entries.take(keys.len() as int) =~= entries);
    if values.contains_key(key) {
        let i = choose|i: int| 0 <= i < keys.len() && #[trigger] keys[i]@ == key;
        assert(keys[i]@ == key);
    }
}

/// The lookup in the first `n` entries finds a key exactly when it is among
/// the first `n` listed keys.
proof fn lemma_lookup_prefix(
    keys: Seq<String>,
    values: Map<Seq<char>, String>,
    key: Seq<char>,
    n: int,
)
    requires
        0 <= n <= keys.len(),
    ensures
        lookup(entries_of(keys, values).take(n), key) == if exists|i: int|
            0 <= i < n && #[trigger] keys[i]@ == key {
            Some(values[key]@)
        } else {
            None
        },
    decreases n,
{
    let entries = entries_of(keys, values);
    if n > 0 {
        lemma_lookup_prefix(keys, values, key, n - 1);
        assert(entries.take(n).drop_last() =~= entries.take(n - 1));
        assert(entries.take(n).last() == entries[n - 1]);
        if keys[n - 1]@ == key {
        } else if exists|i: int| 0 <= i < n && #[trigger] keys[i]@ == key {
            let i = choose|i: int| 0 <= i < n && #[trigger] keys[i]@ == key;
            assert(0 <= i < n - 1 && keys[i]@ == key);
        }
    }
}

/// The store. Keys are stored once and never overwritten.
pub struct Database {
    values: StringHashMap<String>,
    keys: Vec<String>,
}

impl View for Database {
    type V = Seq<(Seq<char>, Seq<char>)>;

    /// The entries, in the order in which they were stored.
    closed spec fn view(&self) -> Seq<(Seq<char>, Seq<char>)> {
        entries_of(self.keys@, self.values@)
    }
}

impl Database {
    /// The store is well formed: the listed keys are exactly the keys that
    /// have a value, and each is listed once.
    pub closed spec fn wf(&self) -> bool {
        &&& forall|i: int, j: int|
            0 <= i < j < self.keys@.len() ==> (#[trigger] self.keys@[i])@ != (
            #[trigger] self.keys@[j])@
        &&& forall|i: int|
            0 <= i < self.keys@.len() ==> self.values@.contains_key(#[trigger] self.keys@[i]@)
        &&& forall|k: Seq<char>|
            self.values@.contains_key(k) ==> exists|i: int|
                0 <= i < self.keys@.len() && #[trigger] self.keys@[i]@ == k
    }

    /// A well-formed store holds no key twice.
    pub proof fn lemma_distinct_keys(&self)
        requires
            self.wf(),
        ensures
            distinct_keys(self@),
    {
        assert forall|i: int, j: int|
            0 <= i < keys_of(self@).len() && 0 <= j < keys_of(self@).len() && i != j implies keys_of(
            self@,
        )[i] != keys_of(self@)[j] by {
            if i < j {
                assert(self.keys@[i]@ != self.keys@[j]@);
            } else {
                assert(self.keys@[j]@ != self.keys@[i]@);
            }
        }
    }

    /// An empty store.
    pub fn new() -> (db: Database)
        ensures
            db.wf(),
            db@ == Seq::<(Seq<char>, Seq<char>)>::empty(),
    {
        let db = Database { values: StringHashMap::new(), keys: Vec::new() };
        assert(db@ =~= Seq::empty());
        db
    }

    /// Reads the value stored under `key`; `NoData` where there is none.
    pub fn get(&self, key: String) -> (r: Result<String, DBError>)
        requires
            self.wf(),
        ensures
            text_of(r) == got(self@, key@),
    {
        proof {
            lemma_lookup_entries(self.keys@, self.values@, key@);
        }
        match self.values.get(key.as_str()) {
            Some(value) => Ok(value.clone()),
            None => Err(DBError::NoData),
        }
    }

    /// Stores `value` under `key` and returns the key, unless the key is
    /// stored already: then the answer is `Exists` and the store keeps what it
    /// has.
    pub fn put(&mut self, key: String, value: String) -> (r: Result<String, DBError>)
        requires
            old(self).wf(),
        ensures
            final(self).wf(),
            text_of(r) == put_answer(old(self)@, key@),
            final(self)@ == after_put(old(self)@, key@, value@),
    {
        proof {
            lemma_lookup_entries(self.keys@, self.values@, key@);
        }
        if self.values.contains_key(key.as_str()) {
            Err(DBError::Exists)
        } else {
            self.values.insert(key.clone(), value);
            self.keys.push(key.clone());
            proof {
                assert forall|k: Seq<char>| self.values@.contains_key(k) implies exists|i: int|
                    0 <= i < self.keys@.len() && #[trigger] self.keys@[i]@ == k by {
                    if k == key@ {
                        assert(self.keys@[self.keys@.len() - 1]@ == k);
                    } else {
                        let i = choose|i: int|
                            0 <= i < old(self).keys@.len() && #[trigger] old(self).keys@[i]@ == k;
                        assert(self.keys@[i]@ == k);
                    }
                }
                assert(self@ =~= old(self)@.push((key@, value@)));
            }
            Ok(key)
        }
    }

    /// Lists the stored keys, each once, in the order in which they were
    /// stored.
    pub fn list(&self) -> (r: Result<Vec<String>, DBError>)
        requires
            self.wf(),
        ensures
            r matches Ok(keys) && keys.deep_view() == keys_of(self@),
    {
        let mut keys: Vec<String> = Vec::new();
        let mut i: usize = 0;
        while i < self.keys.len()
            invariant
                i <= self.keys@.len(),
                keys@.len() == i,
                forall|j: int| 0 <= j < i ==> (#[trigger] keys@[j])@ == self.keys@[j]@,
            decreases self.keys@.len() - i,
        {
            keys.push(self.keys[i].clone());
            i = i + 1;
        }
        assert(keys.deep_view() =~= keys_of(self@));
        Ok(keys)
    }
}

} // verus!
