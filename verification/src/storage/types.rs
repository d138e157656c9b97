//! Keys as the engine stores them, and the changes that a transaction asks
//! for.

use crate::util::codec::bytes::{
    decode_bytes, encode_bytes, lemma_decode_encode, spec_decode_bytes, spec_encode_bytes,
};
use crate::util::codec::number::{be_bytes, encode_u64_into, U64_SIZE};
use crate::util::codec::order::to_vec;
use vstd::prelude::*;

verus! {

/// What is stored under a key.
pub type Value = Vec<u8>;

/// A user key with its value.
pub type KvPair = (Vec<u8>, Value);

/// Why a key could not be read back.
#[derive(Clone, Copy, Debug, PartialEq, Eq, Structural)]
pub enum CodecError {
    /// The key is too short to end in a timestamp.
    KeyLength,
    /// No encoded user key stands at the front of the key.
    KeyPadding,
}

/// A key in its stored form: an encoded user key, which may be followed by
/// eight bytes that tell a version or a page apart.
#[derive(Debug, PartialEq, Eq)]
pub struct Key {
    pub encoded: Vec<u8>,
}

impl View for Key {
    type V = Seq<u8>;

    open spec fn view(&self) -> Seq<u8> {
        self.encoded@
    }
}

/// The eight bytes behind a key that tell the version written at `ts`
/// apart. The timestamp is inverted, so that newer versions sort first.
pub open spec fn ts_suffix(ts: u64) -> Seq<u8> {
    be_bytes(!ts)
}

/// The stored key of the version of `key` written at `ts`.
pub open spec fn spec_append_ts(key: Seq<u8>, ts: u64) -> Seq<u8> {
    key + ts_suffix(ts)
}

/// The stored key of page `index` of the committed versions of `key`.
pub open spec fn spec_append_meta_index(key: Seq<u8>, index: u64) -> Seq<u8> {
    key + be_bytes(index)
}

impl Key {
    /// The stored form of the user key `key`.
    pub fn from_raw(key: &[u8]) -> (k: Key)
        ensures
            k@ == spec_encode_bytes(key@),
    {
        Key { encoded: encode_bytes(key) }
    }

    /// The user key that the key stands for.
    pub fn raw(&self) -> (r: Result<Vec<u8>, CodecError>)
        ensures
            match r {
                Ok(raw) => spec_decode_bytes(self@) matches Some((k, _)) && raw@ == k,
                Err(e) => spec_decode_bytes(self@) is None && e == CodecError::KeyPadding,
            },
    {
        match decode_bytes(self.encoded.as_slice()) {
            Some((raw, _)) => Ok(raw),
            None => Err(CodecError::KeyPadding),
        }
    }

    /// The key with the stored form `encoded_key`.
    pub fn from_encoded(encoded_key: Vec<u8>) -> (k: Key)
        ensures
            k@ == encoded_key@,
    {
        Key { encoded: encoded_key }
    }

    /// The stored form of the key.
    pub fn encoded(&self) -> (e: &Vec<u8>)
        ensures
            e@ == self@,
    {
        &self.encoded
    }

    /// The stored key of the version of this key written at `ts`.
    pub fn append_ts(&self, ts: u64) -> (k: Key)
        ensures
            k@ == spec_append_ts(self@, ts),
    {
        let mut encoded = to_vec(self.encoded.as_slice());
        encode_u64_into(&mut encoded, !ts);
        Key { encoded }
    }

    /// The stored key of page `index` of the committed versions of this
    /// key.
    pub fn append_meta_index(&self, index: u64) -> (k: Key)
        ensures
            k@ == spec_append_meta_index(self@, index),
    {
        let mut encoded = to_vec(self.encoded.as_slice());
        encode_u64_into(&mut encoded, index);
        Key { encoded }
    }

    /// The key without the eight bytes at its end.
    pub fn truncate_ts(&self) -> (r: Result<Key, CodecError>)
        ensures
            match r {
                Ok(k) => self@.len() >= 8 && k@ == self@.subrange(0, self@.len() - 8),
                Err(e) => self@.len() < 8 && e == CodecError::KeyLength,
            },
    {
        let len = self.encoded.len();
        if len < U64_SIZE {
            return Err(CodecError::KeyLength);
        }
        let mut encoded: Vec<u8> = Vec::new();
        let mut i: usize = 0;
        while i < len - U64_SIZE
            invariant
                i <= len - 8,
                len == self@.len(),
                len >= 8,
                encoded@ == self@.subrange(0, i as int),
            decreases len - i,
        {
            encoded.push(self.encoded[i]);
            i += 1;
            assert(encoded@ =~= self@.subrange(0, i as int));
        }
        Ok(Key { encoded })
    }
}

impl Clone for Key {
    fn clone(&self) -> (k: Key)
        ensures
            k@ == self@,
    {
        Key { encoded: to_vec(self.encoded.as_slice()) }
    }
}

/// The stored form of the user key `k`.
pub fn make_key(k: &[u8]) -> (key: Key)
    ensures
        key@ == spec_encode_bytes(k@),
{
    Key::from_raw(k)
}

/// The user key comes back from its stored form, with or without eight
/// bytes behind it.
pub proof fn lemma_raw_of_key(raw: Seq<u8>, suffix: Seq<u8>)
    ensures
        spec_decode_bytes(spec_encode_bytes(raw) + suffix) matches Some((k, _)) && k == raw,
        spec_decode_bytes(spec_encode_bytes(raw)) matches Some((k, _)) && k == raw,
{
    lemma_decode_encode(raw, suffix);
    lemma_decode_encode(raw, Seq::empty());
    assert(spec_encode_bytes(raw) + Seq::<u8>::empty() =~= spec_encode_bytes(raw));
}

/// What a transaction asks to do with a key: write a value, delete the
/// key, or only lock it.
#[derive(Debug, PartialEq, Eq)]
pub enum Mutation {
    Put((Key, Value)),
    Delete(Key),
    Lock(Key),
}

impl Mutation {
    /// The key that the mutation is about, in its stored form.
    pub open spec fn spec_key(&self) -> Seq<u8> {
        match *self {
            Mutation::Put((key, _)) => key@,
            Mutation::Delete(key) => key@,
            Mutation::Lock(key) => key@,
        }
    }

    /// The key that the mutation is about.
    pub fn key(&self) -> (k: &Key)
        ensures
            k@ == self.spec_key(),
    {
        match self {
            Mutation::Put((key, _)) => key,
            Mutation::Delete(key) => key,
            Mutation::Lock(key) => key,
        }
    }
}

} // verus!
