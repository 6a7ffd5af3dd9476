use vstd::prelude::*;

use crate::message::{Frame, Message};

verus! {

/// What the store holds for one key: its value and, if it expires, the instant
/// (milliseconds since the Unix epoch) from which it reads as absent.
pub struct Stored {
    pub value: Frame,
    pub expires_at: Option<int>,
}

/// Whether a stored entry is still live at `now`.
pub open spec fn live(s: Stored, now: int) -> bool {
    match s.expires_at {
        None => true,
        Some(t) => now < t,
    }
}

/// What a read of key `k` at `now` returns: the value while it is live, the
/// null bulk string once it expired, nothing for a key never written.
pub open spec fn read_at(m: Map<Frame, Stored>, k: Frame, now: int) -> Option<Frame> {
    if m.contains_key(k) {
        if live(m[k], now) {
            Some(m[k].value)
        } else {
            Some(Frame::NullBulk)
        }
    } else {
        None
    }
}

/// The first instant at which a write at `now` with an optional time to live
/// `t` reads as expired, or `None` where it does not fit an `i64`. A positive
/// `t` keeps the value readable up to and including `now + t`; a `t` of zero
/// or less makes the entry expired from `now` on.
pub open spec fn expiry_of(now: int, px: Option<int>) -> Option<Option<int>> {
    match px {
        None => Some(None),
        Some(t) => {
            let e = if t > 0 {
                now + t + 1
            } else {
                now + t
            };
            if i64::MIN <= e <= i64::MAX {
                Some(Some(e))
            } else {
                None
            }
        },
    }
}

/// Relies on chrono's `From<SystemTime> for DateTime<Utc>` and
/// `DateTime::timestamp_millis`: the system clock in milliseconds since the
/// Unix epoch, negative for a clock set before it. That conversion does not
/// panic on a clock before the epoch; it unwraps only for instants beyond
/// chrono's range of about 262,000 years, which a system clock cannot reach.
/// Nothing is assumed of the value.
#[verifier::external_body]
pub(crate) fn clock_millis() -> (r: i64) {
    chrono::DateTime::<chrono::Utc>::from(std::time::SystemTime::now()).timestamp_millis()
}

/// The effect of a write of `value` under `key` at `now`: the store `after`
/// holds the new entry, or the write was refused and the store is as `before`.
pub open spec fn write_outcome(
    before: Map<Frame, Stored>,
    after: Map<Frame, Stored>,
    key: Frame,
    value: Frame,
    px: Option<int>,
    now: int,
    r: Result<(), StorageError>,
) -> bool {
    match expiry_of(now, px) {
        Some(exp) => r is Ok && after == before.insert(key, Stored { value, expires_at: exp }),
        None => r == Err::<(), StorageError>(StorageError::ExpiryOutOfRange) && after == before,
    }
}

/// Why a write was refused.
#[derive(Debug, Clone, Copy, PartialEq, Eq, Structural)]
pub enum StorageError {
    /// The expiry instant does not fit the clock's range.
    ExpiryOutOfRange,
}

struct Entry {
    key: Message,
    value: Message,
    expires_at: Option<i64>,
}

spec fn stored_of(e: Entry) -> Stored {
    Stored {
        value: e.value@,
        expires_at: match e.expires_at {
            Some(t) => Some(t as int),
            None => None,
        },
    }
}

spec fn entries_map(s: Seq<Entry>) -> Map<Frame, Stored>
    decreases s.len(),
{
    if s.len() == 0 {
        Map::empty()
    } else {
        entries_map(s.drop_last()).insert(s.last().key@, stored_of(s.last()))
    }
}

spec fn keys_unique(s: Seq<Entry>) -> bool {
    forall|i: int, j: int| 0 <= i < j < s.len() ==> s[i].key@ != s[j].key@
}

proof fn lemma_map_has(s: Seq<Entry>, i: int)
    requires
        keys_unique(s),
        0 <= i < s.len(),
    ensures
        entries_map(s).contains_key(s[i].key@),
        entries_map(s)[s[i].key@] == stored_of(s[i]),
    decreases s.len(),
{
    if i < s.len() - 1 {
        let t = s.drop_last();
        assert(t[i] == s[i]);
        assert(s.last().key@ != s[i].key@);
        lemma_map_has(t, i);
    }
}

proof fn lemma_map_lacks(s: Seq<Entry>, k: Frame)
    requires
        forall|i: int| 0 <= i < s.len() ==> #[trigger] s[i].key@ != k,
    ensures
        !entries_map(s).contains_key(k),
    decreases s.len(),
{
    if s.len() > 0 {
        let t = s.drop_last();
        assert forall|i: int| 0 <= i < t.len() implies #[trigger] t[i].key@ != k by {
            assert(t[i] == s[i]);
        }
        lemma_map_lacks(t, k);
        assert(s[s.len() - 1].key@ != k);
    }
}

proof fn lemma_map_update(s: Seq<Entry>, i: int, e: Entry)
    requires
        keys_unique(s),
        0 <= i < s.len(),
        s[i].key@ == e.key@,
    ensures
        entries_map(s.update(i, e)) == entries_map(s).insert(e.key@, stored_of(e)),
        keys_unique(s.update(i, e)),
    decreases s.len(),
{
    let u = s.update(i, e);
    let t = s.drop_last();
    if i == s.len() - 1 {
        assert(u.drop_last() =~= t);
        assert(entries_map(u) =~= entries_map(s).insert(e.key@, stored_of(e)));
    } else {
        assert(u.drop_last() =~= t.update(i, e));
        assert(keys_unique(t));
        lemma_map_update(t, i, e);
        assert(s.last().key@ != e.key@);
        assert(entries_map(u) =~= entries_map(s).insert(e.key@, stored_of(e)));
    }
}

/// The store: a map from key frames to values with optional expiry.
pub struct Db {
    entries: Vec<Entry>,
}

impl View for Db {
    type V = Map<Frame, Stored>;

    closed spec fn view(&self) -> Map<Frame, Stored> {
        entries_map(self.entries@)
    }
}

impl Db {
    /// The store's invariant: one entry per key.
    pub closed spec fn wf(&self) -> bool {
        keys_unique(self.entries@)
    }

    /// An empty store.
    pub fn new() -> (r: Db)
        ensures
            r.wf(),
            r@ == Map::<Frame, Stored>::empty(),
    {
        Db { entries: Vec::new() }
    }

    /// The index of the entry for `key`, if there is one.
    fn position(&self, key: &Message) -> (r: Option<usize>)
        requires
            self.wf(),
        ensures
            match r {
                Some(i) => i < self.entries@.len() && self.entries@[i as int].key@ == key@,
                None => !self@.contains_key(key@),
            },
    {
        let mut i: usize = 0;
        while i < self.entries.len()
            invariant
                0 <= i <= self.entries@.len(),
                forall|j: int| 0 <= j < i ==> #[trigger] self.entries@[j].key@ != key@,
            decreases self.entries@.len() - i,
        {
            if self.entries[i].key == *key {
                return Some(i);
            }
            i = i + 1;
        }
        proof {
            lemma_map_lacks(self.entries@, key@);
        }
        None
    }

    /// What a read of `key` returns at instant `now` (milliseconds since the
    /// Unix epoch).
    pub fn get_at(&self, key: &Message, now: i64) -> (r: Option<Message>)
        requires
            self.wf(),
        ensures
            match r {
                Some(v) => read_at(self@, key@, now as int) == Some(v@),
                None => read_at(self@, key@, now as int) is None,
            },
    {
        match self.position(key) {
            None => None,
            Some(i) => {
                proof {
                    lemma_map_has(self.entries@, i as int);
                }
                let e = &self.entries[i];
                let is_live = match e.expires_at {
                    None => true,
                    Some(t) => now < t,
                };
                if is_live {
                    Some(e.value.clone())
                } else {
                    Some(Message::NullBulkString)
                }
            },
        }
    }

    /// Writes `value` under `key` at instant `now`, to expire after
    /// `expire_milliseconds` where given.
    pub fn set_at(
        &mut self,
        key: Message,
        value: Message,
        expire_milliseconds: Option<i64>,
        now: i64,
    ) -> (r: Result<(), StorageError>)
        requires
            old(self).wf(),
        ensures
            final(self).wf(),
            write_outcome(
                old(self)@,
                final(self)@,
                key@,
                value@,
                opt_ms(expire_milliseconds),
                now as int,
                r,
            ),
    {
        let expires_at = match expire_milliseconds {
            None => None,
            Some(ms) => {
                let t = match now.checked_add(ms) {
                    Some(t) => t,
                    None => {
                        return Err(StorageError::ExpiryOutOfRange);
                    },
                };
                if ms > 0 {
                    match t.checked_add(1) {
                        Some(e) => Some(e),
                        None => {
                            return Err(StorageError::ExpiryOutOfRange);
                        },
                    }
                } else {
                    Some(t)
                }
            },
        };
        let ghost k = key@;
        let entry = Entry { key, value, expires_at };
        assert(stored_of(entry) == Stored {
            value: value@,
            expires_at: expiry_of(now as int, opt_ms(expire_milliseconds))->Some_0,
        });
        match self.position(&entry.key) {
            Some(i) => {
                proof {
                    lemma_map_update(self.entries@, i as int, entry);
                }
                self.entries.set(i, entry);
            },
            None => {
                proof {
                    let s = self.entries@;
                    assert(s.push(entry).drop_last() =~= s);
                    assert forall|a: int, b: int| 0 <= a < b < s.push(entry).len() implies s.push(
                        entry,
                    )[a].key@ != s.push(entry)[b].key@ by {
                        if b == s.len() {
                            assert(s[a].key@ != k) by {
                                if s[a].key@ == k {
                                    lemma_map_has(s, a);
                                }
                            }
                        }
                    }
                }
                self.entries.push(entry);
            },
        }
        Ok(())
    }

    /// What a read of `key` returns at the current time.
    pub fn get(&self, key: &Message) -> (r: Option<Message>)
        requires
            self.wf(),
        ensures
            exists|now: i64|
                match r {
                    Some(v) => read_at(self@, key@, now as int) == Some(v@),
                    None => read_at(self@, key@, now as int) is None,
                },
    {
        let now = clock_millis();
        self.get_at(key, now)
    }

    /// Writes `value` under `key` at the current time, to expire after
    /// `expire_milliseconds` where given.
    pub fn set(&mut self, key: Message, value: Message, expire_milliseconds: Option<i64>) -> (r:
        Result<(), StorageError>)
        requires
            old(self).wf(),
        ensures
            final(self).wf(),
            exists|now: i64|
                write_outcome(
                    old(self)@,
                    final(self)@,
                    key@,
                    value@,
                    opt_ms(expire_milliseconds),
                    now as int,
                    r,
                ),
    {
        let now = clock_millis();
        self.set_at(key, value, expire_milliseconds, now)
    }
}

/// An optional number of milliseconds, as an integer.
pub open spec fn opt_ms(o: Option<i64>) -> Option<int> {
    match o {
        Some(t) => Some(t as int),
        None => None,
    }
}

} // verus!
