//! The records of the multi-version layer: the lock on a key, and the
//! pages that list the committed versions of a key, newest first.

use crate::util::codec::number::{
    be_bytes, be_value, decode_u64_at, encode_u64_into, lemma_be_bytes_of_value,
    lemma_be_value_of_bytes,
};
use vstd::prelude::*;

verus! {

/// The index of the first page of every key.
pub const FIRST_META_INDEX: u64 = 0;

/// The number of versions at which a page is split.
pub const META_SPLIT_SIZE: usize = 20;

/// The bound below which page indices and the timestamps of transactions
/// stay, so that no page is stored where a version is.
pub const TS_LIMIT: u64 = 0x8000_0000_0000_0000;

/// What a lock protects.
#[derive(Clone, Copy, Debug, PartialEq, Eq, Structural)]
pub enum MetaLockType {
    /// The transaction has only read the key.
    ReadOnly,
    /// The transaction writes or deletes the key.
    ReadWrite,
}

/// The lock on a key: who holds it, and which key stands for the whole
/// transaction.
#[derive(Debug, PartialEq, Eq)]
pub struct MetaLock {
    pub lock_type: MetaLockType,
    pub primary_key: Vec<u8>,
    pub start_ts: u64,
}

/// A lock as a mathematical value.
pub struct MetaLockView {
    pub lock_type: MetaLockType,
    pub primary_key: Seq<u8>,
    pub start_ts: u64,
}

impl View for MetaLock {
    type V = MetaLockView;

    open spec fn view(&self) -> MetaLockView {
        MetaLockView {
            lock_type: self.lock_type,
            primary_key: self.primary_key@,
            start_ts: self.start_ts,
        }
    }
}

/// A committed version: the transaction that wrote it began at `start_ts`
/// and committed at `commit_ts`.
#[derive(Clone, Copy, Debug, PartialEq, Eq, Structural)]
pub struct MetaItem {
    pub start_ts: u64,
    pub commit_ts: u64,
}

/// A page of committed versions, newest first, and the index of the page
/// that holds the versions before them.
#[derive(Debug, PartialEq, Eq)]
pub struct Meta {
    pub items: Vec<MetaItem>,
    pub next: Option<u64>,
}

/// A page as a mathematical value.
pub struct MetaView {
    pub items: Seq<MetaItem>,
    pub next: Option<u64>,
}

impl View for Meta {
    type V = MetaView;

    open spec fn view(&self) -> MetaView {
        MetaView { items: self.items@, next: self.next }
    }
}

/// The byte that stands for the kind of a lock.
pub open spec fn lock_type_byte(t: MetaLockType) -> u8 {
    match t {
        MetaLockType::ReadOnly => 0,
        MetaLockType::ReadWrite => 1,
    }
}

/// The stored form of a lock: the kind, the start timestamp, the primary
/// key.
pub open spec fn spec_lock_bytes(lock: MetaLockView) -> Seq<u8> {
    seq![lock_type_byte(lock.lock_type)] + be_bytes(lock.start_ts) + lock.primary_key
}

/// The lock that `b` is the stored form of, if it is one.
pub open spec fn spec_parse_lock(b: Seq<u8>) -> Option<MetaLockView> {
    if b.len() < 9 || b[0] > 1 {
        None
    } else {
        Some(
            MetaLockView {
                lock_type: if b[0] == 0 {
                    MetaLockType::ReadOnly
                } else {
                    MetaLockType::ReadWrite
                },
                start_ts: be_value(b.subrange(1, 9)),
                primary_key: b.skip(9),
            },
        )
    }
}

/// A lock comes back from its stored form.
pub proof fn lemma_parse_lock_bytes(lock: MetaLockView)
    ensures
        spec_parse_lock(spec_lock_bytes(lock)) == Some(lock),
{
    let b = spec_lock_bytes(lock);
    lemma_be_value_of_bytes(lock.start_ts);
    assert(b.subrange(1, 9) =~= be_bytes(lock.start_ts));
    assert(b.skip(9) =~= lock.primary_key);
}

/// The stored form of a list of versions: sixteen bytes each.
pub open spec fn spec_items_bytes(items: Seq<MetaItem>) -> Seq<u8>
    decreases items.len(),
{
    if items.len() == 0 {
        Seq::empty()
    } else {
        spec_items_bytes(items.drop_last()) + be_bytes(items.last().start_ts) + be_bytes(
            items.last().commit_ts,
        )
    }
}

/// The versions whose stored forms make up `b`, whose length is a multiple
/// of sixteen.
pub open spec fn spec_parse_items(b: Seq<u8>) -> Seq<MetaItem>
    decreases b.len(),
{
    if b.len() < 16 {
        Seq::empty()
    } else {
        spec_parse_items(b.subrange(0, b.len() - 16)).push(
            MetaItem {
                start_ts: be_value(b.subrange(b.len() - 16, b.len() - 8)),
                commit_ts: be_value(b.subrange(b.len() - 8, b.len() as int)),
            },
        )
    }
}

/// The stored form of a page: whether another page follows, its index,
/// then the versions.
pub open spec fn spec_meta_bytes(m: MetaView) -> Seq<u8> {
    seq![
        if m.next is Some {
            1u8
        } else {
            0u8
        },
    ] + be_bytes(
        match m.next {
            Some(n) => n,
            None => 0,
        },
    ) + spec_items_bytes(m.items)
}

/// The page that `b` is the stored form of, if it is one.
pub open spec fn spec_parse_meta(b: Seq<u8>) -> Option<MetaView> {
    if b.len() < 9 || b[0] > 1 || (b.len() - 9) % 16 != 0 || (b[0] == 0 && be_value(
        b.subrange(1, 9),
    ) != 0) {
        None
    } else {
        Some(
            MetaView {
                next: if b[0] == 1 {
                    Some(be_value(b.subrange(1, 9)))
                } else {
                    None
                },
                items: spec_parse_items(b.skip(9)),
            },
        )
    }
}

/// The stored form of a list of versions has sixteen bytes for each, and
/// the versions come back from it.
pub proof fn lemma_parse_items_bytes(items: Seq<MetaItem>)
    ensures
        spec_items_bytes(items).len() == 16 * items.len(),
        spec_parse_items(spec_items_bytes(items)) == items,
    decreases items.len(),
{
    if items.len() > 0 {
        let b = spec_items_bytes(items);
        let head = spec_items_bytes(items.drop_last());
        lemma_parse_items_bytes(items.drop_last());
        lemma_be_value_of_bytes(items.last().start_ts);
        lemma_be_value_of_bytes(items.last().commit_ts);
        assert(b.subrange(0, b.len() - 16) =~= head);
        assert(b.subrange(b.len() - 16, b.len() - 8) =~= be_bytes(items.last().start_ts));
        assert(b.subrange(b.len() - 8, b.len() as int) =~= be_bytes(items.last().commit_ts));
        assert(items.drop_last().push(items.last()) =~= items);
    } else {
        assert(spec_parse_items(spec_items_bytes(items)) =~= items);
    }
}

/// A page comes back from its stored form.
pub proof fn lemma_parse_meta_bytes(m: MetaView)
    ensures
        spec_parse_meta(spec_meta_bytes(m)) == Some(m),
{
    let b = spec_meta_bytes(m);
    let n = match m.next {
        Some(n) => n,
        None => 0,
    };
    lemma_parse_items_bytes(m.items);
    lemma_be_value_of_bytes(n);
    assert(b.subrange(1, 9) =~= be_bytes(n));
    assert(b.skip(9) =~= spec_items_bytes(m.items));
    assert(spec_parse_meta(b)->0.items == m.items);
}

/// The stored form of the versions that come back from `b` is `b`.
pub proof fn lemma_items_bytes_parse(b: Seq<u8>)
    requires
        b.len() % 16 == 0,
    ensures
        spec_items_bytes(spec_parse_items(b)) == b,
    decreases b.len(),
{
    if b.len() >= 16 {
        let head = b.subrange(0, b.len() - 16);
        lemma_items_bytes_parse(head);
        let s = b.subrange(b.len() - 16, b.len() - 8);
        let c = b.subrange(b.len() - 8, b.len() as int);
        lemma_be_bytes_of_value(s);
        lemma_be_bytes_of_value(c);
        let items = spec_parse_items(b);
        assert(items.drop_last() =~= spec_parse_items(head));
        assert(head + s + c =~= b);
    } else {
        assert(b =~= Seq::<u8>::empty());
    }
}

/// A stored form of a page is the stored form of the page that comes back
/// from it: a page has one stored form only.
pub proof fn lemma_meta_bytes_parse(b: Seq<u8>)
    requires
        spec_parse_meta(b) is Some,
    ensures
        spec_meta_bytes(spec_parse_meta(b)->0) == b,
{
    let m = spec_parse_meta(b)->0;
    lemma_items_bytes_parse(b.skip(9));
    lemma_be_bytes_of_value(b.subrange(1, 9));
    assert(seq![b[0]] + b.subrange(1, 9) + b.skip(9) =~= b);
}

/// The index of the page that a split of a page with next page `next`
/// creates: the first index that no page of the key has yet. None if the
/// indices are used up.
pub open spec fn spec_split_index(next: Option<u64>) -> Option<u64> {
    let index = match next {
        Some(n) => n + 1,
        None => FIRST_META_INDEX + 1,
    };
    if index < TS_LIMIT {
        Some(index as u64)
    } else {
        None
    }
}

/// What a split makes of a page, if the page is split: the page that
/// stays, the page that is created, and the index of that page.
///
/// A page is split once it holds `META_SPLIT_SIZE` versions or more. The
/// newer half of `META_SPLIT_SIZE` stays; the older versions move to the
/// new page, which points to where the page pointed before; the page then
/// points to the new page.
pub open spec fn spec_split(m: MetaView) -> Option<(MetaView, MetaView, u64)> {
    if m.items.len() < META_SPLIT_SIZE {
        None
    } else {
        match spec_split_index(m.next) {
            None => None,
            Some(index) => Some(
                (
                    MetaView {
                        items: m.items.subrange(0, (META_SPLIT_SIZE / 2) as int),
                        next: Some(index),
                    },
                    MetaView {
                        items: m.items.subrange(
                            (META_SPLIT_SIZE / 2) as int,
                            m.items.len() as int,
                        ),
                        next: m.next,
                    },
                    index,
                ),
            ),
        }
    }
}

/// A split loses no version and changes no order. The page that stays
/// holds the newer half of `META_SPLIT_SIZE` and points to the new page;
/// the new page holds the versions behind them and points to where the
/// page pointed before; and the new page has the first index that the key
/// has not used. A page with fewer than `META_SPLIT_SIZE` versions is not
/// split.
pub proof fn lemma_split_keeps_versions(m: MetaView)
    ensures
        m.items.len() < META_SPLIT_SIZE ==> spec_split(m) is None,
        spec_split(m) matches Some((stays, created, index)) ==> {
            &&& stays.items + created.items == m.items
            &&& stays.items.len() == META_SPLIT_SIZE / 2
            &&& stays.next == Some(index)
            &&& created.next == m.next
            &&& spec_split_index(m.next) == Some(index)
            &&& match m.next {
                Some(n) => index == n + 1,
                None => index == FIRST_META_INDEX + 1,
            }
        },
{
    if let Some((stays, created, index)) = spec_split(m) {
        assert(stays.items + created.items =~= m.items);
    }
}

impl MetaLock {
    /// The stored form of the lock.
    pub fn to_bytes(&self) -> (b: Vec<u8>)
        ensures
            b@ == spec_lock_bytes(self@),
    {
        let mut b: Vec<u8> = Vec::new();
        b.push(
            match self.lock_type {
                MetaLockType::ReadOnly => 0u8,
                MetaLockType::ReadWrite => 1u8,
            },
        );
        encode_u64_into(&mut b, self.start_ts);
        let ghost head = b@;
        let mut i: usize = 0;
        while i < self.primary_key.len()
            invariant
                i <= self.primary_key@.len(),
                b@ == head + self.primary_key@.subrange(0, i as int),
            decreases self.primary_key@.len() - i,
        {
            b.push(self.primary_key[i]);
            i += 1;
            assert(b@ =~= head + self.primary_key@.subrange(0, i as int));
        }
        assert(b@ =~= spec_lock_bytes(self@));
        b
    }

    /// Reads a lock from its stored form.
    pub fn parse(b: &[u8]) -> (r: Option<MetaLock>)
        ensures
            match r {
                Some(lock) => spec_parse_lock(b@) == Some(lock@),
                None => spec_parse_lock(b@) is None,
            },
    {
        if b.len() < 9 || b[0] > 1 {
            return None;
        }
        let lock_type = if b[0] == 0 {
            MetaLockType::ReadOnly
        } else {
            MetaLockType::ReadWrite
        };
        let start_ts = decode_u64_at(b, 1);
        let mut primary_key: Vec<u8> = Vec::new();
        let mut i: usize = 9;
        while i < b.len()
            invariant
                9 <= i <= b@.len(),
                primary_key@ == b@.subrange(9, i as int),
            decreases b@.len() - i,
        {
            primary_key.push(b[i]);
            i += 1;
            assert(primary_key@ =~= b@.subrange(9, i as int));
        }
        assert(primary_key@ =~= b@.skip(9));
        Some(MetaLock { lock_type, primary_key, start_ts })
    }
}

impl Meta {
    /// A page without versions.
    pub fn new() -> (m: Meta)
        ensures
            m@ == (MetaView { items: Seq::empty(), next: None }),
    {
        Meta { items: Vec::new(), next: None }
    }

    /// Reads a page from its stored form.
    pub fn parse(b: &[u8]) -> (r: Option<Meta>)
        ensures
            match r {
                Some(m) => spec_parse_meta(b@) == Some(m@),
                None => spec_parse_meta(b@) is None,
            },
    {
        if b.len() < 9 || b[0] > 1 || (b.len() - 9) % 16 != 0 {
            return None;
        }
        let index = decode_u64_at(b, 1);
        if b[0] == 0 && index != 0 {
            return None;
        }
        let next = if b[0] == 1 {
            Some(index)
        } else {
            None
        };
        let mut items: Vec<MetaItem> = Vec::new();
        let ghost body = b@.skip(9);
        let mut pos: usize = 9;
        proof {
            assert(body.subrange(0, 0) =~= Seq::<u8>::empty());
        }
        while pos < b.len()
            invariant
                9 <= pos <= b@.len(),
                (pos - 9) % 16 == 0,
                (b@.len() - 9) % 16 == 0,
                body == b@.skip(9),
                items@ == spec_parse_items(body.subrange(0, pos - 9)),
            decreases b@.len() - pos,
        {
            let start_ts = decode_u64_at(b, pos);
            let commit_ts = decode_u64_at(b, pos + 8);
            items.push(MetaItem { start_ts, commit_ts });
            proof {
                let chunk = body.subrange(0, pos - 9 + 16);
                assert(chunk.subrange(0, chunk.len() - 16) =~= body.subrange(0, pos - 9));
                assert(chunk.subrange(chunk.len() - 16, chunk.len() - 8) =~= b@.subrange(
                    pos as int,
                    pos + 8,
                ));
                assert(chunk.subrange(chunk.len() - 8, chunk.len() as int) =~= b@.subrange(
                    pos + 8,
                    pos + 16,
                ));
            }
            pos += 16;
        }
        proof {
            assert(body.subrange(0, pos - 9) =~= body);
        }
        Some(Meta { items, next })
    }

    /// The stored form of the page.
    pub fn to_bytes(&self) -> (b: Vec<u8>)
        ensures
            b@ == spec_meta_bytes(self@),
    {
        let mut b: Vec<u8> = Vec::new();
        match self.next {
            Some(n) => {
                b.push(1u8);
                encode_u64_into(&mut b, n);
            },
            None => {
                b.push(0u8);
                encode_u64_into(&mut b, 0);
            },
        }
        let ghost head = b@;
        let mut i: usize = 0;
        proof {
            assert(self.items@.subrange(0, 0) =~= Seq::<MetaItem>::empty());
            assert(b@ =~= head + spec_items_bytes(self.items@.subrange(0, 0)));
        }
        while i < self.items.len()
            invariant
                i <= self.items@.len(),
                b@ == head + spec_items_bytes(self.items@.subrange(0, i as int)),
            decreases self.items@.len() - i,
        {
            let item = self.items[i];
            encode_u64_into(&mut b, item.start_ts);
            encode_u64_into(&mut b, item.commit_ts);
            i += 1;
            proof {
                let done = self.items@.subrange(0, i as int);
                assert(done.drop_last() =~= self.items@.subrange(0, i - 1));
                assert(done.last() == item);
                assert(b@ =~= head + spec_items_bytes(done));
            }
        }
        proof {
            assert(self.items@.subrange(0, i as int) =~= self.items@);
            assert(b@ =~= spec_meta_bytes(self@));
        }
        b
    }

    /// The versions of the page, newest first.
    pub fn items(&self) -> (items: &Vec<MetaItem>)
        ensures
            items@ == self@.items,
    {
        &self.items
    }

    /// Puts a version in front of the versions of the page.
    pub fn push_item(&mut self, item: MetaItem)
        ensures
            final(self)@ == (MetaView {
                items: seq![item] + old(self)@.items,
                next: old(self)@.next,
            }),
    {
        self.items.insert(0, item);
        assert(self.items@ =~= seq![item] + old(self).items@);
    }

    /// The index of the page that holds the versions before those of this
    /// page.
    pub fn next_index(&self) -> (next: Option<u64>)
        ensures
            next == self@.next,
    {
        self.next
    }

    /// Splits the page if it has grown to `META_SPLIT_SIZE` versions:
    /// returns the page that takes the older versions, and its index.
    pub fn split(&mut self) -> (r: Option<(Meta, u64)>)
        ensures
            match spec_split(old(self)@) {
                None => r is None && final(self)@ == old(self)@,
                Some((stays, created, index)) => r matches Some((page, i)) && page@ == created
                    && i == index && final(self)@ == stays,
            },
    {
        if self.items.len() < META_SPLIT_SIZE {
            return None;
        }
        let index: u64 = match self.next {
            Some(n) => {
                if n >= TS_LIMIT - 1 {
                    return None;
                }
                n + 1
            },
            None => FIRST_META_INDEX + 1,
        };
        let older = self.items.split_off(META_SPLIT_SIZE / 2);
        let created = Meta { items: older, next: self.next };
        self.next = Some(index);
        Some((created, index))
    }
}

} // verus!
