//! An encoding of byte strings that is self-delimiting: the encoded form
//! tells where it ends, so that more bytes can follow it.
//!
//! The bytes are cut into groups of eight. Each group is followed by a
//! marker. A full group that is not the last has the marker `0xff`. The
//! last group is padded with zeros to eight bytes, and its marker is `0xff`
//! less the number of zeros; a byte string whose length is a multiple of
//! eight ends in a group of eight zeros.

use vstd::prelude::*;

verus! {

/// How many bytes of the raw form go into one group of the encoded form.
pub const ENC_GROUP_SIZE: usize = 8;

/// The marker behind a group that is full and has more behind it.
pub const ENC_MARKER: u8 = 0xff;

/// The byte that fills a group up.
pub const ENC_PAD: u8 = 0x0;

/// `n` zero bytes.
pub open spec fn zeros(n: nat) -> Seq<u8> {
    Seq::new(n, |i: int| 0u8)
}

/// The encoded form of `raw`.
pub open spec fn spec_encode_bytes(raw: Seq<u8>) -> Seq<u8>
    decreases raw.len(),
{
    if raw.len() >= 8 {
        raw.subrange(0, 8).push(ENC_MARKER) + spec_encode_bytes(raw.skip(8))
    } else {
        (raw + zeros((8 - raw.len()) as nat)).push((ENC_MARKER - (8 - raw.len())) as u8)
    }
}

/// The byte string whose encoded form stands at the front of `data`, and
/// the length of that form; none if no encoded form stands there.
pub open spec fn spec_decode_bytes(data: Seq<u8>) -> Option<(Seq<u8>, nat)>
    decreases data.len(),
{
    if data.len() < 9 {
        None
    } else {
        let marker = data[8];
        if marker == ENC_MARKER {
            match spec_decode_bytes(data.skip(9)) {
                None => None,
                Some((rest, n)) => Some((data.subrange(0, 8) + rest, (n + 9) as nat)),
            }
        } else {
            let pad = ENC_MARKER - marker;
            if pad > 8 {
                None
            } else if data.subrange(8 - pad, 8) != zeros(pad as nat) {
                None
            } else {
                Some((data.subrange(0, 8 - pad), 9))
            }
        }
    }
}

/// The length of an encoded form: nine bytes for each started group of
/// eight, and nine more where the length is a multiple of eight.
pub proof fn lemma_encode_len(raw: Seq<u8>)
    ensures
        spec_encode_bytes(raw).len() == (raw.len() / 8 + 1) * 9,
    decreases raw.len(),
{
    if raw.len() >= 8 {
        lemma_encode_len(raw.skip(8));
        assert(raw.skip(8).len() / 8 + 1 == raw.len() / 8);
    }
}

/// Decoding finds what was encoded, whatever follows the encoded form, and
/// tells how long the form was.
pub proof fn lemma_decode_encode(raw: Seq<u8>, rest: Seq<u8>)
    ensures
        spec_decode_bytes(spec_encode_bytes(raw) + rest) == Some(
            (raw, spec_encode_bytes(raw).len()),
        ),
    decreases raw.len(),
{
    let enc = spec_encode_bytes(raw);
    let data = enc + rest;
    if raw.len() >= 8 {
        let tail = spec_encode_bytes(raw.skip(8));
        lemma_decode_encode(raw.skip(8), rest);
        assert(enc.len() == 9 + tail.len());
        assert(data[8] == ENC_MARKER);
        assert(data.skip(9) =~= tail + rest);
        assert(data.subrange(0, 8) =~= raw.subrange(0, 8));
        assert(raw.subrange(0, 8) + raw.skip(8) =~= raw);
    } else {
        let pad = (8 - raw.len()) as nat;
        assert(enc.len() == 9);
        assert(data[8] == (ENC_MARKER - pad) as u8);
        assert(data.subrange(8 - pad, 8) =~= zeros(pad));
        assert(data.subrange(0, 8 - pad) =~= raw);
    }
}

/// Different byte strings have different encoded forms, and no encoded
/// form is the beginning of another.
pub proof fn lemma_encode_prefix_free(a: Seq<u8>, b: Seq<u8>, x: Seq<u8>, y: Seq<u8>)
    requires
        spec_encode_bytes(a) + x == spec_encode_bytes(b) + y,
    ensures
        a == b,
        x == y,
{
    lemma_decode_encode(a, x);
    lemma_decode_encode(b, y);
    let ea = spec_encode_bytes(a);
    assert(x =~= (ea + x).skip(ea.len() as int));
    assert(y =~= (ea + y).skip(ea.len() as int));
}

/// The encoded form of `raw`.
pub fn encode_bytes(raw: &[u8]) -> (enc: Vec<u8>)
    ensures
        enc@ == spec_encode_bytes(raw@),
{
    let mut enc: Vec<u8> = Vec::new();
    let len = raw.len();
    let mut idx: usize = 0;
    proof {
        assert(raw@.skip(0) =~= raw@);
    }
    while len - idx >= ENC_GROUP_SIZE
        invariant
            idx <= len,
            len == raw@.len(),
            enc@ + spec_encode_bytes(raw@.skip(idx as int)) == spec_encode_bytes(raw@),
        decreases len - idx,
    {
        let ghost rest = raw@.skip(idx as int);
        let ghost before = enc@;
        let mut j: usize = 0;
        while j < ENC_GROUP_SIZE
            invariant
                j <= ENC_GROUP_SIZE,
                idx + ENC_GROUP_SIZE <= len,
                len == raw@.len(),
                rest == raw@.skip(idx as int),
                enc@ == before + rest.subrange(0, j as int),
            decreases ENC_GROUP_SIZE - j,
        {
            enc.push(raw[idx + j]);
            j += 1;
            assert(enc@ =~= before + rest.subrange(0, j as int));
        }
        enc.push(ENC_MARKER);
        idx += ENC_GROUP_SIZE;
        proof {
            assert(rest.skip(8) =~= raw@.skip(idx as int));
            assert(enc@ + spec_encode_bytes(raw@.skip(idx as int)) =~= before + (rest.subrange(
                0,
                8,
            ).push(ENC_MARKER) + spec_encode_bytes(rest.skip(8))));
        }
    }
    let ghost rest = raw@.skip(idx as int);
    let ghost before = enc@;
    let remain = len - idx;
    let mut j: usize = 0;
    while j < remain
        invariant
            j <= remain,
            remain == len - idx,
            idx <= len,
            len == raw@.len(),
            rest == raw@.skip(idx as int),
            enc@ == before + rest.subrange(0, j as int),
        decreases remain - j,
    {
        enc.push(raw[idx + j]);
        j += 1;
        assert(enc@ =~= before + rest.subrange(0, j as int));
    }
    let pad = ENC_GROUP_SIZE - remain;
    let mut j: usize = 0;
    while j < pad
        invariant
            j <= pad,
            pad == 8 - rest.len(),
            enc@ == before + rest + zeros(j as nat),
        decreases pad - j,
    {
        enc.push(ENC_PAD);
        j += 1;
        assert(enc@ =~= before + rest + zeros(j as nat));
    }
    enc.push(ENC_MARKER - (pad as u8));
    proof {
        assert(enc@ =~= before + spec_encode_bytes(rest));
    }
    enc
}

/// Reads the byte string whose encoded form stands at the front of
/// `data`, and tells how long that form is. `None` if no encoded form
/// stands there.
pub fn decode_bytes(data: &[u8]) -> (r: Option<(Vec<u8>, usize)>)
    ensures
        match r {
            Some((raw, n)) => spec_decode_bytes(data@) == Some((raw@, n as nat)),
            None => spec_decode_bytes(data@) is None,
        },
{
    let mut raw: Vec<u8> = Vec::new();
    let mut pos: usize = 0;
    proof {
        assert(data@.skip(0) =~= data@);
    }
    loop
        invariant
            pos <= data@.len(),
            spec_decode_bytes(data@) == match spec_decode_bytes(data@.skip(pos as int)) {
                None => None,
                Some((rest, n)) => Some((raw@ + rest, (n + pos) as nat)),
            },
        decreases data@.len() - pos,
    {
        let ghost cur = data@.skip(pos as int);
        let ghost before = raw@;
        if data.len() - pos < 9 {
            return None;
        }
        let marker = data[pos + 8];
        assert(cur[8] == marker);
        if marker == ENC_MARKER {
            let mut j: usize = 0;
            while j < 8
                invariant
                    j <= 8,
                    pos + 9 <= data@.len() <= usize::MAX,
                    cur == data@.skip(pos as int),
                    raw@ == before + cur.subrange(0, j as int),
                decreases 8 - j,
            {
                raw.push(data[pos + j]);
                j += 1;
                assert(raw@ =~= before + cur.subrange(0, j as int));
            }
            pos += 9;
            proof {
                assert(cur.skip(9) =~= data@.skip(pos as int));
                match spec_decode_bytes(cur.skip(9)) {
                    Some((rest, n)) => {
                        assert(before + (cur.subrange(0, 8) + rest) =~= raw@ + rest);
                    },
                    None => {},
                }
            }
        } else {
            let pad = (ENC_MARKER - marker) as usize;
            if pad > 8 {
                return None;
            }
            let kept = 8 - pad;
            let mut j: usize = kept;
            while j < 8
                invariant
                    kept <= j <= 8,
                    kept == 8 - pad,
                    pad <= 8,
                    pad == ENC_MARKER - marker,
                    marker != ENC_MARKER,
                    cur[8] == marker,
                    pos + 9 <= data@.len() <= usize::MAX,
                    cur == data@.skip(pos as int),
                    forall|k: int| kept <= k < j ==> cur[k] == 0u8,
                    spec_decode_bytes(data@) == match spec_decode_bytes(data@.skip(pos as int)) {
                        None => None,
                        Some((rest, n)) => Some((raw@ + rest, (n + pos) as nat)),
                    },
                decreases 8 - j,
            {
                if data[pos + j] != ENC_PAD {
                    proof {
                        assert(cur[j as int] != 0u8);
                        assert(cur.subrange(kept as int, 8)[j - kept] == cur[j as int]);
                        assert(zeros(pad as nat)[j - kept] == 0u8);
                        assert(cur.subrange(kept as int, 8) != zeros(pad as nat));
                        assert(spec_decode_bytes(cur) is None);
                    }
                    return None;
                }
                j += 1;
            }
            proof {
                assert(cur.subrange(kept as int, 8) =~= zeros(pad as nat));
            }
            let mut j: usize = 0;
            while j < kept
                invariant
                    j <= kept,
                    kept <= 8,
                    pos + 9 <= data@.len() <= usize::MAX,
                    cur == data@.skip(pos as int),
                    raw@ == before + cur.subrange(0, j as int),
                decreases kept - j,
            {
                raw.push(data[pos + j]);
                j += 1;
                assert(raw@ =~= before + cur.subrange(0, j as int));
            }
            return Some((raw, pos + 9));
        }
    }
}

} // verus!
