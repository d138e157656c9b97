//! Scanning the keys of a snapshot in order, forward or backward, reading
//! each at a timestamp.

use crate::proto::raft_cmdpb::CfName;
use crate::raftstore::store::engine::SnapshotView;
use crate::storage::mvcc::errors::{Error as MvccError, ErrorKind as MvccErrorKind};
use crate::storage::mvcc::txn::{spec_get, MvccSnapshot};
use crate::storage::txn::errors::{Error, ErrorKind};
use crate::storage::types::{CodecError, Key, KvPair, Value};
use crate::util::codec::bytes::spec_decode_bytes;
use crate::util::codec::order::{bytes_lt, lex_lt, to_vec};
use vstd::prelude::*;

verus! {

/// The key behind every key that `key` with eight bytes behind it can be.
pub open spec fn spec_skip_key(key: Seq<u8>) -> Seq<u8> {
    key + Seq::new(8, |i: int| 0xffu8)
}

/// The first place at or behind `pos` whose key sorts after `bound`; the
/// number of keys if there is none.
pub open spec fn skip_pos(keys: Seq<Seq<u8>>, pos: int, bound: Seq<u8>) -> int
    decreases keys.len() - pos,
{
    if pos >= keys.len() {
        keys.len() as int
    } else if pos >= 0 && lex_lt(bound, keys[pos]) {
        pos
    } else {
        skip_pos(keys, pos + 1, bound)
    }
}

/// The last place before `pos` whose key sorts before `bound`; `-1` if
/// there is none.
pub open spec fn back_pos(keys: Seq<Seq<u8>>, pos: int, bound: Seq<u8>) -> int
    decreases pos,
{
    if pos <= 0 {
        -1
    } else if pos <= keys.len() && lex_lt(keys[pos - 1], bound) {
        pos - 1
    } else {
        back_pos(keys, pos - 1, bound)
    }
}

/// `skip_pos` finds a place at or behind where it starts.
pub proof fn lemma_skip_pos(keys: Seq<Seq<u8>>, pos: int, bound: Seq<u8>)
    requires
        0 <= pos <= keys.len(),
    ensures
        pos <= skip_pos(keys, pos, bound) <= keys.len(),
    decreases keys.len() - pos,
{
    if pos < keys.len() && !lex_lt(bound, keys[pos]) {
        lemma_skip_pos(keys, pos + 1, bound);
    }
}

/// `back_pos` finds a place before where it starts.
pub proof fn lemma_back_pos(keys: Seq<Seq<u8>>, pos: int, bound: Seq<u8>)
    requires
        0 <= pos,
    ensures
        -1 <= back_pos(keys, pos, bound) < pos,
    decreases pos,
{
    if pos > 0 && !(pos <= keys.len() && lex_lt(keys[pos - 1], bound)) {
        lemma_back_pos(keys, pos - 1, bound);
    }
}

/// Where a search through the keys ended, and how.
pub enum Step {
    /// No key was left to look at.
    End,
    /// The key at place `pos` is a stored key of `key`, which has the value
    /// `value` at the timestamp of the search.
    Found { pos: int, key: Seq<u8>, value: Seq<u8> },
    /// The key at place `pos` could not be read.
    Failed { pos: int, err: MvccErrorKind },
}

/// The key without the eight bytes at its end, or the failure to find
/// eight bytes there.
pub open spec fn spec_truncate(key: Seq<u8>) -> Result<Seq<u8>, MvccErrorKind> {
    if key.len() < 8 {
        Err(MvccErrorKind::Codec { err: CodecError::KeyLength })
    } else {
        Ok(key.subrange(0, key.len() - 8))
    }
}

/// The search forward from place `pos` for a key that has a value at
/// `ts`. A stored key stands for the key without its last eight bytes. If
/// that key has no value at `ts`, the search goes on behind every stored
/// key that can stand for it.
pub open spec fn spec_seek_from(s: SnapshotView, keys: Seq<Seq<u8>>, pos: int, ts: u64) -> Step
    decreases keys.len() - pos,
{
    if pos < 0 || pos >= keys.len() {
        Step::End
    } else {
        match spec_truncate(keys[pos]) {
            Err(err) => Step::Failed { pos, err },
            Ok(key) => match spec_get(s, key, ts) {
                Err(err) => Step::Failed { pos, err },
                Ok(Some(value)) => Step::Found { pos, key, value },
                // None means value is deleted, so just continue.
                Ok(None) => {
                    proof {
                        lemma_skip_pos(keys, pos + 1, spec_skip_key(key));
                    }
                    spec_seek_from(s, keys, skip_pos(keys, pos + 1, spec_skip_key(key)), ts)
                },
            },
        }
    }
}

/// The search backward from place `pos` for a key that has a value at
/// `ts`. If the key that a stored key stands for has no value at `ts`, the
/// search goes on before every stored key that is not before that key.
pub open spec fn spec_reverse_seek_from(
    s: SnapshotView,
    keys: Seq<Seq<u8>>,
    pos: int,
    ts: u64,
) -> Step
    decreases pos + 1,
{
    if pos < 0 || pos >= keys.len() {
        Step::End
    } else {
        match spec_truncate(keys[pos]) {
            Err(err) => Step::Failed { pos, err },
            Ok(key) => match spec_get(s, key, ts) {
                Err(err) => Step::Failed { pos, err },
                Ok(Some(value)) => Step::Found { pos, key, value },
                Ok(None) => {
                    proof {
                        lemma_back_pos(keys, pos, key);
                    }
                    spec_reverse_seek_from(s, keys, back_pos(keys, pos, key), ts)
                },
            },
        }
    }
}


/// What a scan yields: user keys with their values, and errors for the
/// keys that are locked, in the order of the scan.
pub type ScanView = Seq<Result<(Seq<u8>, Seq<u8>), ErrorKind>>;

/// The user key that a found key stands for, with its value.
pub open spec fn spec_pair(key: Seq<u8>, value: Seq<u8>) -> Result<
    (Seq<u8>, Seq<u8>),
    MvccErrorKind,
> {
    match spec_decode_bytes(key) {
        Some((raw, _)) => Ok((raw, value)),
        None => Err(MvccErrorKind::Codec { err: CodecError::KeyPadding }),
    }
}

/// The scan forward from place `pos`, for at most `limit` results. A key
/// that is locked yields an error and the scan goes on behind it; any
/// other failure ends the scan with that failure.
pub open spec fn spec_scan_from(
    s: SnapshotView,
    keys: Seq<Seq<u8>>,
    pos: int,
    ts: u64,
    limit: nat,
) -> Result<ScanView, ErrorKind>
    decreases limit,
{
    if limit == 0 {
        Ok(Seq::empty())
    } else {
        match spec_seek_from(s, keys, pos, ts) {
            Step::End => Ok(Seq::empty()),
            Step::Found { pos, key, value } => match spec_pair(key, value) {
                Err(err) => Err(ErrorKind::Mvcc { err }),
                Ok(pair) => match spec_scan_from(
                    s,
                    keys,
                    skip_pos(keys, pos + 1, spec_skip_key(key)),
                    ts,
                    (limit - 1) as nat,
                ) {
                    Err(e) => Err(e),
                    Ok(rest) => Ok(seq![Ok(pair)] + rest),
                },
            },
            Step::Failed { pos, err } => if err is KeyIsLocked {
                match spec_scan_from(
                    s,
                    keys,
                    skip_pos(keys, pos + 1, spec_skip_key(spec_truncate(keys[pos])->Ok_0)),
                    ts,
                    (limit - 1) as nat,
                ) {
                    Err(e) => Err(e),
                    Ok(rest) => Ok(seq![Err(ErrorKind::Mvcc { err })] + rest),
                }
            } else {
                Err(ErrorKind::Mvcc { err })
            },
        }
    }
}

/// The scan backward from place `pos`, for at most `limit` results.
pub open spec fn spec_reverse_scan_from(
    s: SnapshotView,
    keys: Seq<Seq<u8>>,
    pos: int,
    ts: u64,
    limit: nat,
) -> Result<ScanView, ErrorKind>
    decreases limit,
{
    if limit == 0 {
        Ok(Seq::empty())
    } else {
        match spec_reverse_seek_from(s, keys, pos, ts) {
            Step::End => Ok(Seq::empty()),
            Step::Found { pos, key, value } => match spec_pair(key, value) {
                Err(err) => Err(ErrorKind::Mvcc { err }),
                Ok(pair) => match spec_reverse_scan_from(
                    s,
                    keys,
                    back_pos(keys, pos, key),
                    ts,
                    (limit - 1) as nat,
                ) {
                    Err(e) => Err(e),
                    Ok(rest) => Ok(seq![Ok(pair)] + rest),
                },
            },
            Step::Failed { pos, err } => if err is KeyIsLocked {
                match spec_reverse_scan_from(
                    s,
                    keys,
                    back_pos(keys, pos, spec_truncate(keys[pos])->Ok_0),
                    ts,
                    (limit - 1) as nat,
                ) {
                    Err(e) => Err(e),
                    Ok(rest) => Ok(seq![Err(ErrorKind::Mvcc { err })] + rest),
                }
            } else {
                Err(ErrorKind::Mvcc { err })
            },
        }
    }
}

/// The place of the first key at or after `key`.
pub open spec fn spec_lower_bound(keys: Seq<Seq<u8>>, key: Seq<u8>) -> int
    decreases keys.len(),
{
    if keys.len() == 0 || !lex_lt(keys[0], key) {
        0
    } else {
        1 + spec_lower_bound(keys.drop_first(), key)
    }
}

/// What a search hands back: where it ended, and what it found.
pub enum Stepped {
    End,
    Found { pos: usize, key: Key, value: Value },
    Failed { pos: usize, err: MvccError },
}

impl View for Stepped {
    type V = Step;

    open spec fn view(&self) -> Step {
        match *self {
            Stepped::End => Step::End,
            Stepped::Found { pos, key, value } => Step::Found {
                pos: pos as int,
                key: key@,
                value: value@,
            },
            Stepped::Failed { pos, err } => Step::Failed { pos: pos as int, err: err@ },
        }
    }
}

/// The view of what a scan yields.
pub open spec fn scan_view(v: Seq<Result<KvPair, Error>>) -> ScanView {
    Seq::new(
        v.len(),
        |i: int|
            match v[i] {
                Ok((k, val)) => Ok((k@, val@)),
                Err(e) => Err(e@),
            },
    )
}

/// The view of the result of a scan.
pub open spec fn scan_result_view(r: Result<Vec<Result<KvPair, Error>>, Error>) -> Result<
    ScanView,
    ErrorKind,
> {
    match r {
        Ok(v) => Ok(scan_view(v@)),
        Err(e) => Err(e@),
    }
}

/// The view of the result of a seek.
pub open spec fn seek_result_view(r: Result<Option<(Key, Value)>, Error>) -> Result<
    Option<(Seq<u8>, Seq<u8>)>,
    ErrorKind,
> {
    match r {
        Ok(Some((k, v))) => Ok(Some((k@, v@))),
        Ok(None) => Ok(None),
        Err(e) => Err(e@),
    }
}

/// What a seek makes of the end of a search.
pub open spec fn step_result(step: Step) -> Result<Option<(Seq<u8>, Seq<u8>)>, ErrorKind> {
    match step {
        Step::End => Ok(None),
        Step::Found { key, value, .. } => Ok(Some((key, value))),
        Step::Failed { err, .. } => Err(ErrorKind::Mvcc { err }),
    }
}

/// A scanner over the keys of a snapshot, which reads each key at the
/// timestamp `start_ts`.
pub struct StoreScanner<'a> {
    pub snapshot: MvccSnapshot<'a>,
    pub start_ts: u64,
}

impl<'a> StoreScanner<'a> {
    /// The representation invariant.
    pub open spec fn wf(&self) -> bool {
        self.snapshot.snapshot.wf() && self.snapshot.start_ts == self.start_ts
    }

    /// What the scanner reads from.
    pub open spec fn view(&self) -> SnapshotView {
        self.snapshot.snapshot@
    }

    /// The stored keys, in order.
    pub open spec fn keys(&self) -> Seq<Seq<u8>> {
        self.snapshot.snapshot.keys(CfName::Default)
    }

    /// The key behind every key that `key` with eight bytes behind it can
    /// be.
    fn skip_key(key: &Key) -> (k: Vec<u8>)
        ensures
            k@ == spec_skip_key(key@),
    {
        let mut k = to_vec(key.encoded.as_slice());
        let ghost head = k@;
        let mut i: usize = 0;
        while i < 8
            invariant
                i <= 8,
                k@ == head + Seq::new(i as nat, |j: int| 0xffu8),
            decreases 8 - i,
        {
            k.push(0xffu8);
            i += 1;
            assert(k@ =~= head + Seq::new(i as nat, |j: int| 0xffu8));
        }
        k
    }

    /// The first place at or behind `pos` whose key sorts after `bound`.
    fn skip_from(&self, pos: usize, bound: &Vec<u8>) -> (p: usize)
        requires
            self.wf(),
            pos <= self.keys().len(),
        ensures
            p == skip_pos(self.keys(), pos as int, bound@),
            pos <= p <= self.keys().len(),
    {
        let data = self.snapshot.snapshot.cf(CfName::Default);
        let n = data.len();
        let mut p = pos;
        while p < n
            invariant
                pos <= p <= n,
                n == data.keys().len(),
                data.keys() == self.keys(),
                skip_pos(self.keys(), pos as int, bound@) == skip_pos(
                    self.keys(),
                    p as int,
                    bound@,
                ),
            decreases n - p,
        {
            let key = data.key_at(p);
            if bytes_lt(bound.as_slice(), key.as_slice()) {
                return p;
            }
            p += 1;
        }
        p
    }

    /// The last place before `pos` whose key sorts before `bound`, if
    /// there is one.
    fn back_from(&self, pos: usize, bound: &Vec<u8>) -> (p: Option<usize>)
        requires
            self.wf(),
            pos <= self.keys().len(),
        ensures
            match p {
                Some(p) => p == back_pos(self.keys(), pos as int, bound@) && p < pos,
                None => back_pos(self.keys(), pos as int, bound@) == -1,
            },
    {
        let data = self.snapshot.snapshot.cf(CfName::Default);
        let mut p = pos;
        while p > 0
            invariant
                p <= pos,
                pos <= data.keys().len(),
                data.keys() == self.keys(),
                back_pos(self.keys(), pos as int, bound@) == back_pos(
                    self.keys(),
                    p as int,
                    bound@,
                ),
            decreases p,
        {
            let key = data.key_at(p - 1);
            if bytes_lt(key.as_slice(), bound.as_slice()) {
                return Some(p - 1);
            }
            p -= 1;
        }
        None
    }

    /// Searches forward from place `pos`.
    fn seek_from(&self, pos: usize) -> (r: Stepped)
        requires
            self.wf(),
        ensures
            r@ == spec_seek_from(self@, self.keys(), pos as int, self.start_ts),
            r matches Stepped::Found { pos: p, key, .. } ==> pos <= p < self.keys().len() && p
                < usize::MAX && spec_truncate(self.keys()[p as int]) == Ok::<
                Seq<u8>,
                MvccErrorKind,
            >(key@),
            r matches Stepped::Failed { pos: p, err } ==> pos <= p < self.keys().len() && p
                < usize::MAX && (err@ is KeyIsLocked ==> spec_truncate(self.keys()[p as int]) is Ok),
    {
        let data = self.snapshot.snapshot.cf(CfName::Default);
        let n = data.len();
        let mut p = pos;
        while p < n
            invariant
                self.wf(),
                pos <= p,
                n == self.keys().len(),
                data.keys() == self.keys(),
                spec_seek_from(self@, self.keys(), pos as int, self.start_ts) == spec_seek_from(
                    self@,
                    self.keys(),
                    p as int,
                    self.start_ts,
                ),
            decreases n - p,
        {
            let found = Key::from_encoded(data.key_at(p));
            let key = match found.truncate_ts() {
                Err(err) => {
                    return Stepped::Failed { pos: p, err: MvccError::Codec { err } };
                },
                Ok(k) => k,
            };
            match self.snapshot.get(&key) {
                Err(err) => {
                    return Stepped::Failed { pos: p, err };
                },
                Ok(Some(value)) => {
                    return Stepped::Found { pos: p, key, value };
                },
                Ok(None) => {
                    let bound = Self::skip_key(&key);
                    proof {
                        lemma_skip_pos(self.keys(), p + 1, bound@);
                    }
                    let next = self.skip_from(p + 1, &bound);
                    p = next;
                },
            }
        }
        Stepped::End
    }

    /// Searches backward from place `pos`.
    fn reverse_seek_from(&self, pos: Option<usize>) -> (r: Stepped)
        requires
            self.wf(),
            pos matches Some(p) ==> p < self.keys().len(),
        ensures
            r@ == spec_reverse_seek_from(
                self@,
                self.keys(),
                match pos {
                    Some(p) => p as int,
                    None => -1,
                },
                self.start_ts,
            ),
            r matches Stepped::Found { pos: p, key, .. } ==> p < self.keys().len()
                && spec_truncate(self.keys()[p as int]) == Ok::<Seq<u8>, MvccErrorKind>(key@),
            r matches Stepped::Failed { pos: p, err } ==> p < self.keys().len() && (err@ is KeyIsLocked
                ==> spec_truncate(self.keys()[p as int]) is Ok),
    {
        let data = self.snapshot.snapshot.cf(CfName::Default);
        let ghost start = match pos {
            Some(p) => p as int,
            None => -1,
        };
        let mut cur = pos;
        loop
            invariant
                self.wf(),
                data.keys() == self.keys(),
                start == match pos {
                    Some(p) => p as int,
                    None => -1,
                },
                cur matches Some(p) ==> p < self.keys().len(),
                spec_reverse_seek_from(self@, self.keys(), start, self.start_ts)
                    == spec_reverse_seek_from(
                    self@,
                    self.keys(),
                    match cur {
                        Some(p) => p as int,
                        None => -1,
                    },
                    self.start_ts,
                ),
            decreases
                    match cur {
                        Some(p) => p + 1,
                        None => 0,
                    },
        {
            let p = match cur {
                None => {
                    return Stepped::End;
                },
                Some(p) => p,
            };
            let found = Key::from_encoded(data.key_at(p));
            let key = match found.truncate_ts() {
                Err(err) => {
                    return Stepped::Failed { pos: p, err: MvccError::Codec { err } };
                },
                Ok(k) => k,
            };
            match self.snapshot.get(&key) {
                Err(err) => {
                    return Stepped::Failed { pos: p, err };
                },
                Ok(Some(value)) => {
                    return Stepped::Found { pos: p, key, value };
                },
                Ok(None) => {
                    proof {
                        lemma_back_pos(self.keys(), p as int, key@);
                    }
                    cur = self.back_from(p, &key.encoded);
                },
            }
        }
    }

    /// The place of the first stored key at or after `key`.
    fn lower_bound(&self, key: &Key) -> (p: usize)
        requires
            self.wf(),
        ensures
            p == spec_lower_bound(self.keys(), key@),
            p <= self.keys().len(),
    {
        let data = self.snapshot.snapshot.cf(CfName::Default);
        let n = data.len();
        let mut p: usize = 0;
        proof {
            assert(self.keys().skip(0) =~= self.keys());
        }
        while p < n
            invariant
                p <= n,
                n == self.keys().len(),
                data.keys() == self.keys(),
                spec_lower_bound(self.keys(), key@) == p + spec_lower_bound(
                    self.keys().skip(p as int),
                    key@,
                ),
            decreases n - p,
        {
            let k = data.key_at(p);
            proof {
                assert(self.keys().skip(p as int)[0] == k@);
                assert(self.keys().skip(p as int).drop_first() =~= self.keys().skip(p + 1));
            }
            if !bytes_lt(k.as_slice(), key.encoded.as_slice()) {
                return p;
            }
            p += 1;
        }
        p
    }

    /// The first key at or after `key` that has a value at the timestamp of
    /// the scanner, with that value. `key` is a stored key; the key that
    /// comes back is the key that a stored key stands for.
    pub fn seek(&mut self, key: Key) -> (r: Result<Option<(Key, Value)>, Error>)
        requires
            old(self).wf(),
        ensures
            *final(self) == *old(self),
            seek_result_view(r) == step_result(
                spec_seek_from(
                    old(self)@,
                    old(self).keys(),
                    spec_lower_bound(old(self).keys(), key@),
                    old(self).start_ts,
                ),
            ),
    {
        let pos = self.lower_bound(&key);
        match self.seek_from(pos) {
            Stepped::End => Ok(None),
            Stepped::Found { pos: _, key, value } => Ok(Some((key, value))),
            Stepped::Failed { pos: _, err } => Err(Error::Mvcc { err }),
        }
    }

    /// The last key before `key` that has a value at the timestamp of the
    /// scanner, with that value.
    pub fn reverse_seek(&mut self, key: Key) -> (r: Result<Option<(Key, Value)>, Error>)
        requires
            old(self).wf(),
        ensures
            *final(self) == *old(self),
            seek_result_view(r) == step_result(
                spec_reverse_seek_from(
                    old(self)@,
                    old(self).keys(),
                    spec_lower_bound(old(self).keys(), key@) - 1,
                    old(self).start_ts,
                ),
            ),
    {
        let pos = self.lower_bound(&key);
        let start = if pos == 0 {
            None
        } else {
            Some(pos - 1)
        };
        match self.reverse_seek_from(start) {
            Stepped::End => Ok(None),
            Stepped::Found { pos: _, key, value } => Ok(Some((key, value))),
            Stepped::Failed { pos: _, err } => Err(Error::Mvcc { err }),
        }
    }

    /// The user key that a found key stands for, with its value.
    fn pair(key: &Key, value: Value) -> (r: Result<KvPair, MvccError>)
        ensures
            match spec_pair(key@, value@) {
                Ok(pair) => r matches Ok((k, v)) && (k@, v@) == pair,
                Err(e) => r matches Err(err) && err@ == e,
            },
    {
        match key.raw() {
            Ok(raw) => Ok((raw, value)),
            Err(err) => Err(MvccError::Codec { err }),
        }
    }

    /// Scans forward from `key` for at most `limit` keys that have a value
    /// at the timestamp of the scanner.
    pub fn scan(&mut self, key: Key, limit: usize) -> (r: Result<Vec<Result<KvPair, Error>>, Error>)
        requires
            old(self).wf(),
        ensures
            *final(self) == *old(self),
            scan_result_view(r) == spec_scan_from(
                old(self)@,
                old(self).keys(),
                spec_lower_bound(old(self).keys(), key@),
                old(self).start_ts,
                limit as nat,
            ),
    {
        let mut results: Vec<Result<KvPair, Error>> = Vec::new();
        let ghost s = self@;
        let ghost keys = self.keys();
        let ghost ts = self.start_ts;
        let ghost start = spec_lower_bound(keys, key@);
        let mut pos = self.lower_bound(&key);
        proof {
            assert(scan_view(results@) =~= Seq::empty());
        }
        while results.len() < limit
            invariant
                self.wf(),
                *self == *old(self),
                s == self@,
                keys == self.keys(),
                ts == self.start_ts,
                results@.len() <= limit,
                start == spec_lower_bound(keys, key@),
                spec_scan_from(s, keys, start, ts, limit as nat) == match spec_scan_from(
                    s,
                    keys,
                    pos as int,
                    ts,
                    (limit - results@.len()) as nat,
                ) {
                    Err(e) => Err(e),
                    Ok(rest) => Ok(scan_view(results@) + rest),
                },
            ensures
                spec_scan_from(s, keys, start, ts, limit as nat) == Ok::<ScanView, ErrorKind>(
                    scan_view(results@),
                ),
            decreases limit - results@.len(),
        {
            let ghost before = scan_view(results@);
            let ghost fuel = (limit - results@.len()) as nat;
            match self.seek_from(pos) {
                Stepped::End => {
                    proof {
                        assert(before + Seq::empty() =~= before);
                    }
                    break ;
                },
                Stepped::Found { pos: p, key: k, value: v } => {
                    match Self::pair(&k, v) {
                        Err(err) => {
                            proof {
                                assert(spec_scan_from(s, keys, pos as int, ts, fuel) == Err::<
                                    ScanView,
                                    ErrorKind,
                                >(ErrorKind::Mvcc { err: err@ }));
                            }
                            return Err(Error::Mvcc { err });
                        },
                        Ok(kv) => {
                            results.push(Ok(kv));
                        },
                    }
                    let bound = Self::skip_key(&k);
                    pos = self.skip_from(p + 1, &bound);
                    proof {
                        let pair = spec_pair(k@, v@)->Ok_0;
                        assert(scan_view(results@) =~= before.push(Ok(pair)));
                        match spec_scan_from(s, keys, pos as int, ts, (fuel - 1) as nat) {
                            Ok(rest) => {
                                assert(before + (seq![Ok(pair)] + rest) =~= scan_view(results@)
                                    + rest);
                            },
                            Err(_) => {},
                        }
                    }
                },
                Stepped::Failed { pos: p, err } => {
                    let locked = match &err {
                        MvccError::KeyIsLocked { .. } => true,
                        _ => false,
                    };
                    if !locked {
                        proof {
                            assert(!(err@ is KeyIsLocked));
                            assert(spec_scan_from(s, keys, pos as int, ts, fuel) == Err::<
                                ScanView,
                                ErrorKind,
                            >(ErrorKind::Mvcc { err: err@ }));
                        }
                        return Err(Error::Mvcc { err });
                    }
                    assert(err@ is KeyIsLocked);
                    let data = self.snapshot.snapshot.cf(CfName::Default);
                    let found = Key::from_encoded(data.key_at(p));
                    let bound = match found.truncate_ts() {
                        Ok(k) => Self::skip_key(&k),
                        Err(_) => Vec::new(),
                    };
                    let ghost e = err@;
                    results.push(Err(Error::Mvcc { err }));
                    pos = self.skip_from(p + 1, &bound);
                    proof {
                        assert(spec_truncate(keys[p as int]) is Ok);
                        assert(scan_view(results@) =~= before.push(
                            Err(ErrorKind::Mvcc { err: e }),
                        ));
                        match spec_scan_from(s, keys, pos as int, ts, (fuel - 1) as nat) {
                            Ok(rest) => {
                                assert(before + (seq![Err(ErrorKind::Mvcc { err: e })] + rest)
                                    =~= scan_view(results@) + rest);
                            },
                            Err(_) => {},
                        }
                    }
                },
            }
        }
        proof {
            if results@.len() == limit {
                assert(scan_view(results@) + Seq::empty() =~= scan_view(results@));
            }
        }
        Ok(results)
    }

    /// Scans backward from `key` for at most `limit` keys that have a value
    /// at the timestamp of the scanner.
    pub fn reverse_scan(&mut self, key: Key, limit: usize) -> (r: Result<
        Vec<Result<KvPair, Error>>,
        Error,
    >)
        requires
            old(self).wf(),
        ensures
            *final(self) == *old(self),
            scan_result_view(r) == spec_reverse_scan_from(
                old(self)@,
                old(self).keys(),
                spec_lower_bound(old(self).keys(), key@) - 1,
                old(self).start_ts,
                limit as nat,
            ),
    {
        let mut results: Vec<Result<KvPair, Error>> = Vec::new();
        let ghost s = self@;
        let ghost keys = self.keys();
        let ghost ts = self.start_ts;
        let first = self.lower_bound(&key);
        let ghost start = first - 1;
        let mut pos: Option<usize> = if first == 0 {
            None
        } else {
            Some(first - 1)
        };
        proof {
            assert(scan_view(results@) =~= Seq::empty());
        }
        while results.len() < limit
            invariant
                self.wf(),
                *self == *old(self),
                s == self@,
                keys == self.keys(),
                ts == self.start_ts,
                results@.len() <= limit,
                start == spec_lower_bound(keys, key@) - 1,
                pos matches Some(p) ==> p < keys.len(),
                spec_reverse_scan_from(s, keys, start, ts, limit as nat)
                    == match spec_reverse_scan_from(
                    s,
                    keys,
                    match pos {
                        Some(p) => p as int,
                        None => -1,
                    },
                    ts,
                    (limit - results@.len()) as nat,
                ) {
                    Err(e) => Err(e),
                    Ok(rest) => Ok(scan_view(results@) + rest),
                },
            ensures
                spec_reverse_scan_from(s, keys, start, ts, limit as nat) == Ok::<
                    ScanView,
                    ErrorKind,
                >(scan_view(results@)),
            decreases limit - results@.len(),
        {
            let ghost before = scan_view(results@);
            let ghost fuel = (limit - results@.len()) as nat;
            let ghost cur = match pos {
                Some(p) => p as int,
                None => -1,
            };
            match self.reverse_seek_from(pos) {
                Stepped::End => {
                    proof {
                        assert(before + Seq::empty() =~= before);
                    }
                    break ;
                },
                Stepped::Found { pos: p, key: k, value: v } => {
                    match Self::pair(&k, v) {
                        Err(err) => {
                            proof {
                                assert(spec_reverse_scan_from(s, keys, cur, ts, fuel) == Err::<
                                    ScanView,
                                    ErrorKind,
                                >(ErrorKind::Mvcc { err: err@ }));
                            }
                            return Err(Error::Mvcc { err });
                        },
                        Ok(kv) => {
                            results.push(Ok(kv));
                        },
                    }
                    pos = self.back_from(p, &k.encoded);
                    proof {
                        let pair = spec_pair(k@, v@)->Ok_0;
                        let next = match pos {
                            Some(p) => p as int,
                            None => -1,
                        };
                        assert(scan_view(results@) =~= before.push(Ok(pair)));
                        match spec_reverse_scan_from(s, keys, next, ts, (fuel - 1) as nat) {
                            Ok(rest) => {
                                assert(before + (seq![Ok(pair)] + rest) =~= scan_view(results@)
                                    + rest);
                            },
                            Err(_) => {},
                        }
                    }
                },
                Stepped::Failed { pos: p, err } => {
                    let locked = match &err {
                        MvccError::KeyIsLocked { .. } => true,
                        _ => false,
                    };
                    if !locked {
                        proof {
                            assert(!(err@ is KeyIsLocked));
                            assert(spec_reverse_scan_from(s, keys, cur, ts, fuel) == Err::<
                                ScanView,
                                ErrorKind,
                            >(ErrorKind::Mvcc { err: err@ }));
                        }
                        return Err(Error::Mvcc { err });
                    }
                    assert(err@ is KeyIsLocked);
                    let data = self.snapshot.snapshot.cf(CfName::Default);
                    let found = Key::from_encoded(data.key_at(p));
                    let bound = match found.truncate_ts() {
                        Ok(k) => k.encoded,
                        Err(_) => Vec::new(),
                    };
                    let ghost e = err@;
                    results.push(Err(Error::Mvcc { err }));
                    pos = self.back_from(p, &bound);
                    proof {
                        let next = match pos {
                            Some(p) => p as int,
                            None => -1,
                        };
                        assert(spec_truncate(keys[p as int]) is Ok);
                        assert(scan_view(results@) =~= before.push(
                            Err(ErrorKind::Mvcc { err: e }),
                        ));
                        match spec_reverse_scan_from(s, keys, next, ts, (fuel - 1) as nat) {
                            Ok(rest) => {
                                assert(before + (seq![Err(ErrorKind::Mvcc { err: e })] + rest)
                                    =~= scan_view(results@) + rest);
                            },
                            Err(_) => {},
                        }
                    }
                },
            }
        }
        proof {
            if results@.len() == limit {
                assert(scan_view(results@) + Seq::empty() =~= scan_view(results@));
            }
        }
        Ok(results)
    }

    /// The value stored under `key` for the transaction that began at
    /// `ts`, whether or not the transaction has committed.
    pub fn get(&mut self, key: &Key, ts: u64) -> (r: Result<Option<Value>, Error>)
        requires
            old(self).wf(),
        ensures
            *final(self) == *old(self),
            r matches Ok(v) && match v {
                Some(v) => crate::storage::mvcc::txn::cf_get(
                    old(self)@.default_cf,
                    crate::storage::types::spec_append_ts(key@, ts),
                ) == Some(v@),
                None => crate::storage::mvcc::txn::cf_get(
                    old(self)@.default_cf,
                    crate::storage::types::spec_append_ts(key@, ts),
                ) is None,
            },
    {
        Ok(self.snapshot.snapshot.get_value(key.append_ts(ts).encoded.as_slice()))
    }
}

} // verus!
