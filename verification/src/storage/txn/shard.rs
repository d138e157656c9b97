//! Which of a fixed number of shards a key belongs to. An operation takes
//! the shards of its keys in rising order, each once, so that two
//! operations never wait for each other.

use crate::storage::types::Key;
use vstd::prelude::*;

verus! {

/// The number of shards of a store.
pub const SHARD_MUTEX_SIZE: usize = 256;

/// The hash of a byte string: each byte in turn is added to thirty-one
/// times the hash so far, within thirty-two bits.
pub open spec fn spec_hash(b: Seq<u8>) -> nat
    decreases b.len(),
{
    if b.len() == 0 {
        0
    } else {
        ((spec_hash(b.drop_last()) * 31 + b.last()) % 0x1_0000_0000) as nat
    }
}

/// The shard of a key among `size` shards.
pub open spec fn spec_shard_index(key: Seq<u8>, size: nat) -> nat
    recommends
        size > 0,
{
    spec_hash(key) % size
}

/// The shard of `key` among `size` shards.
pub fn shard_index(key: &Key, size: usize) -> (r: usize)
    requires
        size > 0,
    ensures
        r == spec_shard_index(key@, size as nat),
        r < size,
{
    let mut h: u64 = 0;
    let mut i: usize = 0;
    proof {
        assert(key@.subrange(0, 0) =~= Seq::<u8>::empty());
    }
    while i < key.encoded.len()
        invariant
            i <= key@.len(),
            h == spec_hash(key@.subrange(0, i as int)),
            h < 0x1_0000_0000,
        decreases key@.len() - i,
    {
        proof {
            assert(key@.subrange(0, i + 1).drop_last() =~= key@.subrange(0, i as int));
            assert(key@.subrange(0, i + 1).last() == key@[i as int]);
        }
        h = (h * 31 + key.encoded[i] as u64) % 0x1_0000_0000;
        i += 1;
    }
    proof {
        assert(key@.subrange(0, i as int) =~= key@);
    }
    (h % (size as u64)) as usize
}

/// Whether shard `x` is the shard of one of `keys`.
pub open spec fn is_shard_of(x: usize, keys: Seq<Key>, size: nat) -> bool {
    exists|k: int| 0 <= k < keys.len() && x == spec_shard_index((#[trigger] keys[k])@, size)
}

/// Whether `shards` are the shards of `keys` among `size`: in rising
/// order, each once, none missing, none too many.
pub open spec fn shards_of(shards: Seq<usize>, keys: Seq<Key>, size: nat) -> bool {
    &&& forall|i: int, j: int| 0 <= i < j < shards.len() ==> shards[i] < shards[j]
    &&& forall|x: usize| #[trigger] shards.contains(x) <==> is_shard_of(x, keys, size)
}

/// The shards with `idx` put in at place `p`, unless it stands there.
pub open spec fn with_shard(before: Seq<usize>, p: int, idx: usize) -> Seq<usize> {
    if p < before.len() && before[p] == idx {
        before
    } else {
        before.insert(p, idx)
    }
}

/// Putting a shard in at its place keeps the shards in rising order.
proof fn lemma_add_shard_order(before: Seq<usize>, p: int, idx: usize)
    requires
        forall|i: int, j: int| 0 <= i < j < before.len() ==> before[i] < before[j],
        0 <= p <= before.len(),
        forall|i: int| 0 <= i < p ==> before[i] < idx,
        p < before.len() ==> before[p] >= idx,
    ensures
        forall|i: int, j: int|
            0 <= i < j < with_shard(before, p, idx).len() ==> with_shard(before, p, idx)[i]
                < with_shard(before, p, idx)[j],
{
    let after = with_shard(before, p, idx);
    if !(p < before.len() && before[p] == idx) {
        assert forall|i: int, j: int| 0 <= i < j < after.len() implies after[i] < after[j] by {
            if j < p {
                assert(after[i] == before[i] && after[j] == before[j]);
            } else if j == p {
                assert(after[i] == before[i]);
            } else if i < p {
                assert(after[i] == before[i] && after[j] == before[j - 1]);
                assert(before[i] < idx);
                if j - 1 > p {
                    assert(before[p] < before[j - 1]);
                }
            } else if i == p {
                assert(after[j] == before[j - 1]);
                if j - 1 > p {
                    assert(before[p] < before[j - 1]);
                }
            } else {
                assert(after[i] == before[i - 1] && after[j] == before[j - 1]);
            }
        }
    }
}

/// Every shard that was there is there after a shard was put in, and so
/// is the shard that was put in.
proof fn lemma_add_shard_members(before: Seq<usize>, p: int, idx: usize)
    requires
        0 <= p <= before.len(),
    ensures
        with_shard(before, p, idx).contains(idx),
        forall|x: usize| before.contains(x) ==> #[trigger] with_shard(before, p, idx).contains(x),
        forall|x: usize| #[trigger]
            with_shard(before, p, idx).contains(x) ==> x == idx || before.contains(x),
{
    let after = with_shard(before, p, idx);
    let present = p < before.len() && before[p] == idx;
    assert(after[p] == idx);
    assert forall|x: usize| before.contains(x) implies #[trigger] after.contains(x) by {
        let i = choose|i: int| 0 <= i < before.len() && before[i] == x;
        if present || i < p {
            assert(after[i] == x);
        } else {
            assert(after[i + 1] == x);
        }
    }
    assert forall|x: usize| #[trigger] after.contains(x) implies x == idx || before.contains(
        x,
    ) by {
        let i = choose|i: int| 0 <= i < after.len() && after[i] == x;
        if present {
            assert(before[i] == x);
        } else if i < p {
            assert(before[i] == x);
        } else if i > p {
            assert(before[i - 1] == x);
        }
    }
}

/// The shards to take for an operation on `keys`, in the order in which
/// to take them.
pub fn shard_indexes(keys: &Vec<Key>, size: usize) -> (shards: Vec<usize>)
    requires
        size > 0,
    ensures
        shards_of(shards@, keys@, size as nat),
{
    let mut shards: Vec<usize> = Vec::new();
    let mut n: usize = 0;
    proof {
        assert(keys@.subrange(0, 0) =~= Seq::<Key>::empty());
    }
    while n < keys.len()
        invariant
            n <= keys@.len(),
            size > 0,
            shards_of(shards@, keys@.subrange(0, n as int), size as nat),
        decreases keys@.len() - n,
    {
        let idx = shard_index(&keys[n], size);
        let ghost before = shards@;
        // the place of the first shard at or after `idx`
        let mut p: usize = 0;
        while p < shards.len() && shards[p] < idx
            invariant
                p <= shards@.len(),
                shards@ == before,
                forall|i: int| 0 <= i < p ==> shards@[i] < idx,
            decreases shards@.len() - p,
        {
            p += 1;
        }
        let present = p < shards.len() && shards[p] == idx;
        if !present {
            shards.insert(p, idx);
        }
        proof {
            let done = keys@.subrange(0, n as int);
            let now = keys@.subrange(0, n + 1);
            assert(shards@ == with_shard(before, p as int, idx));
            lemma_add_shard_order(before, p as int, idx);
            lemma_add_shard_members(before, p as int, idx);
            assert forall|x: usize| #[trigger] shards@.contains(x) <==> is_shard_of(
                x,
                now,
                size as nat,
            ) by {
                if is_shard_of(x, now, size as nat) {
                    let k = choose|k: int|
                        0 <= k < now.len() && x == spec_shard_index(
                            (#[trigger] now[k])@,
                            size as nat,
                        );
                    if k < n {
                        assert(done[k] == now[k]);
                        assert(is_shard_of(x, done, size as nat));
                    }
                }
                if shards@.contains(x) {
                    if x == idx {
                        assert(now[n as int] == keys@[n as int]);
                    } else {
                        assert(before.contains(x));
                        let k = choose|k: int|
                            0 <= k < done.len() && x == spec_shard_index(
                                (#[trigger] done[k])@,
                                size as nat,
                            );
                        assert(now[k] == done[k]);
                    }
                }
            }
        }
        n += 1;
    }
    proof {
        assert(keys@.subrange(0, n as int) =~= keys@);
    }
    shards
}

} // verus!
