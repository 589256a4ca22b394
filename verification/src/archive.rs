//! The streaming archive: blobs with their identifiers, one frame after
//! another, in the order in which they were written.
//!
//! A frame is a length, the identifier in its binary form and the blob;
//! the length counts the identifier and the blob. Lengths and the numbers
//! of an identifier are unsigned LEB128.

use crate::utils::cid::{
    same_cid, Cid, CidView, Multihash, MultihashView, SmallCid, Version, DAG_PB, SHA2_256,
};
use vstd::prelude::*;

verus! {

/// Most bytes that the LEB128 form of a 64-bit number takes.
pub const MAX_VARINT_LEN: usize = 10;

/// Unsigned LEB128: seven bits a byte, least significant first, the top
/// bit set on every byte but the last.
pub open spec fn varint(n: nat) -> Seq<u8>
    decreases n,
{
    if n < 128 {
        seq![n as u8]
    } else {
        seq![(n % 128 + 128) as u8] + varint(n / 128)
    }
}

/// The number at the front of `s` and the count of bytes it takes, where
/// it takes `budget` bytes at most and fits 64 bits.
pub open spec fn parse_varint(s: Seq<u8>, budget: nat) -> Option<(nat, nat)>
    decreases budget,
{
    if budget == 0 || s.len() == 0 {
        None
    } else if s[0] < 128 {
        Some((s[0] as nat, 1))
    } else {
        match parse_varint(s.drop_first(), (budget - 1) as nat) {
            Some((high, used)) => if (s[0] - 128) + 128 * high <= u64::MAX {
                Some((((s[0] - 128) + 128 * high) as nat, used + 1))
            } else {
                None
            },
            None => None,
        }
    }
}

/// Appends the LEB128 form of `n`.
pub fn write_varint(n: u64, out: &mut Vec<u8>)
    ensures
        final(out)@ == old(out)@ + varint(n as nat),
{
    let mut rest: u64 = n;
    while rest >= 128
        invariant
            out@ + varint(rest as nat) == old(out)@ + varint(n as nat),
        decreases rest,
    {
        let ghost before = out@;
        out.push((rest % 128 + 128) as u8);
        proof {
            assert(varint(rest as nat) == seq![(rest % 128 + 128) as u8] + varint(
                (rest / 128) as nat,
            ));
            assert(out@ + varint((rest / 128) as nat) =~= before + varint(rest as nat));
        }
        rest = rest / 128;
    }
    let ghost before = out@;
    out.push(rest as u8);
    assert(out@ =~= before + varint(rest as nat));
}

/// Reads the LEB128 number that starts at `pos`: the number and the
/// position after it. `None` where the bytes end first (or `pos` lies
/// beyond them), the number takes more than `budget` bytes, or it does not
/// fit 64 bits.
pub fn read_varint(bytes: &[u8], pos: usize, budget: usize) -> (r: Option<(u64, usize)>)
    ensures
        pos > bytes@.len() ==> r.is_none(),
        pos <= bytes@.len() ==> r.is_some() == parse_varint(
            bytes@.skip(pos as int),
            budget as nat,
        ).is_some(),
        r.is_some() ==> pos < r.unwrap().1 <= bytes@.len() && parse_varint(
            bytes@.skip(pos as int),
            budget as nat,
        ) == Some((r.unwrap().0 as nat, (r.unwrap().1 - pos) as nat)),
    decreases budget,
{
    if budget == 0 || pos >= bytes.len() {
        return None;
    }
    let byte = bytes[pos];
    proof {
        assert(bytes@.skip(pos as int)[0] == byte);
        assert(bytes@.skip(pos as int).drop_first() =~= bytes@.skip(pos + 1));
    }
    if byte < 128 {
        return Some((byte as u64, pos + 1));
    }
    match read_varint(bytes, pos + 1, budget - 1) {
        Some((high, next)) => {
            let low: u64 = (byte - 128) as u64;
            if high > (u64::MAX - low) / 128 {
                None
            } else {
                Some((low + 128 * high, next))
            }
        },
        None => None,
    }
}

/// A number of `digits` LEB128 digits takes `digits` bytes at most.
pub proof fn lemma_varint_len(n: nat, digits: nat)
    requires
        digits >= 1,
        n < pow128(digits),
    ensures
        1 <= varint(n).len() <= digits,
    decreases n,
{
    reveal_with_fuel(pow128, 2);
    if n >= 128 {
        assert(digits >= 2);
        assert(pow128(digits) == 128 * pow128((digits - 1) as nat));
        lemma_varint_len(n / 128, (digits - 1) as nat);
    }
}

/// 128 to the power of `k`.
pub open spec fn pow128(k: nat) -> nat
    decreases k,
{
    if k == 0 {
        1
    } else {
        128 * pow128((k - 1) as nat)
    }
}

/// Reading what was written gives the number back, whatever follows it.
pub proof fn lemma_varint_round_trip(n: nat, rest: Seq<u8>, budget: nat)
    requires
        n <= u64::MAX,
        budget >= varint(n).len(),
    ensures
        parse_varint(varint(n) + rest, budget) == Some((n, varint(n).len())),
    decreases n,
{
    let s = varint(n) + rest;
    if n < 128 {
        assert(s[0] == n as u8);
    } else {
        assert(s[0] == (n % 128 + 128) as u8);
        assert(s.drop_first() =~= varint(n / 128) + rest);
        lemma_varint_round_trip(n / 128, rest, (budget - 1) as nat);
    }
}

/// A 64-bit number takes ten bytes at most.
pub proof fn lemma_varint_len_u64(n: nat)
    requires
        n <= u64::MAX,
    ensures
        1 <= varint(n).len() <= MAX_VARINT_LEN,
{
    assert(pow128(10) == 0x400000000000000000) by {
        reveal_with_fuel(pow128, 11);
    }
    lemma_varint_len(n, 10);
}

/// Binary form of a multihash: code, digest length, digest.
pub open spec fn multihash_bytes(h: MultihashView) -> Seq<u8> {
    varint(h.code as nat) + varint(h.digest.len()) + h.digest
}

/// Binary form of an identifier. Version 1 is the version, the codec and
/// the multihash; version 0 is the bare multihash.
pub open spec fn cid_bytes(c: CidView) -> Seq<u8> {
    match c.version {
        Version::V0 => multihash_bytes(c.hash),
        Version::V1 => varint(1) + varint(c.codec as nat) + multihash_bytes(c.hash),
    }
}

/// The multihash at the front of `s` and the count of bytes it takes.
pub open spec fn parse_multihash(s: Seq<u8>) -> Option<(MultihashView, nat)> {
    match parse_varint(s, MAX_VARINT_LEN as nat) {
        None => None,
        Some((code, a)) => match parse_varint(s.skip(a as int), MAX_VARINT_LEN as nat) {
            None => None,
            Some((size, b)) => if size <= 64 && a + b + size <= s.len() {
                Some(
                    (
                        MultihashView {
                            code: code as u64,
                            digest: s.subrange((a + b) as int, (a + b + size) as int),
                        },
                        a + b + size,
                    ),
                )
            } else {
                None
            },
        },
    }
}

/// The identifier at the front of `s` and the count of bytes it takes.
/// The two bytes `0x12 0x20` open a version 0 identifier; any other
/// identifier opens with version 1.
#[verifier::opaque]
pub open spec fn parse_cid(s: Seq<u8>) -> Option<(CidView, nat)> {
    match parse_varint(s, MAX_VARINT_LEN as nat) {
        None => None,
        Some((version, a)) => match parse_varint(s.skip(a as int), MAX_VARINT_LEN as nat) {
            None => None,
            Some((codec, b)) => if version == 0x12 && codec == 0x20 {
                if a + b + 32 <= s.len() {
                    Some(
                        (
                            CidView {
                                version: Version::V0,
                                codec: DAG_PB,
                                hash: MultihashView {
                                    code: SHA2_256,
                                    digest: s.subrange((a + b) as int, (a + b + 32) as int),
                                },
                            },
                            a + b + 32,
                        ),
                    )
                } else {
                    None
                }
            } else if version == 1 {
                match parse_multihash(s.skip((a + b) as int)) {
                    Some((hash, used)) => Some(
                        (CidView { version: Version::V1, codec: codec as u64, hash }, a + b + used),
                    ),
                    None => None,
                }
            } else {
                None
            },
        },
    }
}

/// Appends `bytes`.
fn append(out: &mut Vec<u8>, bytes: &[u8])
    ensures
        final(out)@ == old(out)@ + bytes@,
{
    let mut i: usize = 0;
    while i < bytes.len()
        invariant
            i <= bytes@.len(),
            out@ == old(out)@ + bytes@.take(i as int),
        decreases bytes@.len() - i,
    {
        let ghost before = out@;
        out.push(bytes[i]);
        i += 1;
        assert(out@ =~= old(out)@ + bytes@.take(i as int));
    }
    assert(bytes@.take(i as int) =~= bytes@);
}

/// The bytes from `from` up to `to`.
fn copy_range(bytes: &[u8], from: usize, to: usize) -> (out: Vec<u8>)
    requires
        from <= to <= bytes@.len(),
    ensures
        out@ == bytes@.subrange(from as int, to as int),
{
    let mut out: Vec<u8> = Vec::new();
    let mut i: usize = from;
    while i < to
        invariant
            from <= i <= to <= bytes@.len(),
            out@ == bytes@.subrange(from as int, i as int),
        decreases to - i,
    {
        out.push(bytes[i]);
        i += 1;
        assert(out@ =~= bytes@.subrange(from as int, i as int));
    }
    out
}

/// Appends the binary form of a multihash.
fn write_multihash(hash: &Multihash, out: &mut Vec<u8>)
    ensures
        final(out)@ == old(out)@ + multihash_bytes(hash@),
{
    let ghost start = out@;
    write_varint(hash.code(), out);
    write_varint(hash.size() as u64, out);
    append(out, hash.digest());
    assert(out@ =~= start + multihash_bytes(hash@));
}

/// Appends the binary form of an identifier.
pub fn write_cid(cid: &Cid, out: &mut Vec<u8>)
    ensures
        final(out)@ == old(out)@ + cid_bytes(cid@),
{
    let ghost start = out@;
    match cid.version() {
        Version::V0 => {
            write_multihash(cid.hash(), out);
        },
        Version::V1 => {
            write_varint(1, out);
            write_varint(cid.codec(), out);
            write_multihash(cid.hash(), out);
            assert(out@ =~= start + cid_bytes(cid@));
        },
    }
}

/// Reads the multihash that starts at `pos`: the multihash and the
/// position after it.
fn read_multihash(bytes: &[u8], pos: usize) -> (r: Option<(Multihash, usize)>)
    ensures
        pos > bytes@.len() ==> r.is_none(),
        pos <= bytes@.len() ==> match parse_multihash(bytes@.skip(pos as int)) {
            Some((hash, used)) => r.is_some() && r.unwrap().0@ == hash && r.unwrap().1 == pos
                + used && pos + used <= bytes@.len(),
            None => r.is_none(),
        },
{
    let ghost s = bytes@.skip(pos as int);
    let (code, at_size) = match read_varint(bytes, pos, MAX_VARINT_LEN) {
        Some(read) => read,
        None => { return None; },
    };
    proof {
        assert(s.skip(at_size - pos) =~= bytes@.skip(at_size as int));
    }
    let (size, at_digest) = match read_varint(bytes, at_size, MAX_VARINT_LEN) {
        Some(read) => read,
        None => { return None; },
    };
    if size > 64 || size > (bytes.len() - at_digest) as u64 {
        return None;
    }
    let end: usize = at_digest + size as usize;
    let digest = copy_range(bytes, at_digest, end);
    proof {
        assert(s.subrange(at_digest - pos, end - pos) =~= bytes@.subrange(
            at_digest as int,
            end as int,
        ));
    }
    match Multihash::wrap(code, digest.as_slice()) {
        Ok(hash) => Some((hash, end)),
        Err(_) => None,
    }
}

/// Reads the identifier that starts at `pos`: the identifier and the
/// position after it. `None` where the bytes hold no identifier there.
pub fn read_cid(bytes: &[u8], pos: usize) -> (r: Option<(Cid, usize)>)
    ensures
        pos > bytes@.len() ==> r.is_none(),
        pos <= bytes@.len() ==> match parse_cid(bytes@.skip(pos as int)) {
            Some((cid, used)) => r.is_some() && r.unwrap().0@ == cid && r.unwrap().1 == pos + used
                && pos + used <= bytes@.len(),
            None => r.is_none(),
        },
{
    reveal(parse_cid);
    let ghost s = bytes@.skip(pos as int);
    let (version, at_codec) = match read_varint(bytes, pos, MAX_VARINT_LEN) {
        Some(read) => read,
        None => { return None; },
    };
    proof {
        assert(s.skip(at_codec - pos) =~= bytes@.skip(at_codec as int));
    }
    let (codec, at_hash) = match read_varint(bytes, at_codec, MAX_VARINT_LEN) {
        Some(read) => read,
        None => { return None; },
    };
    proof {
        assert(s.skip(at_hash - pos) =~= bytes@.skip(at_hash as int));
    }
    if version == 0x12 && codec == 0x20 {
        if bytes.len() - at_hash < 32 {
            return None;
        }
        let end: usize = at_hash + 32;
        let digest = copy_range(bytes, at_hash, end);
        proof {
            assert(s.subrange(at_hash - pos, end - pos) =~= bytes@.subrange(
                at_hash as int,
                end as int,
            ));
        }
        match Multihash::wrap(SHA2_256, digest.as_slice()) {
            Ok(hash) => match Cid::new_v0(hash) {
                Ok(cid) => Some((cid, end)),
                Err(_) => None,
            },
            Err(_) => None,
        }
    } else if version == 1 {
        match read_multihash(bytes, at_hash) {
            Some((hash, end)) => Some((Cid::new_v1(codec, hash), end)),
            None => None,
        }
    } else {
        None
    }
}

/// Appends the binary form of a compact identifier, which is that of
/// the identifier it stands for.
pub fn write_small_cid(small: &SmallCid, out: &mut Vec<u8>)
    ensures
        final(out)@ == old(out)@ + cid_bytes(small@.cid()),
{
    let cid = small.cid();
    write_cid(&cid, out);
}

/// Reads the identifier that starts at `pos` into its compact form: the
/// compact identifier and the position after it.
pub fn read_small_cid(bytes: &[u8], pos: usize) -> (r: Option<(SmallCid, usize)>)
    ensures
        pos > bytes@.len() ==> r.is_none(),
        pos <= bytes@.len() ==> match parse_cid(bytes@.skip(pos as int)) {
            Some((cid, used)) => r.is_some() && r.unwrap().0@ == cid.canonical() && r.unwrap().1
                == pos + used && pos + used <= bytes@.len(),
            None => r.is_none(),
        },
{
    match read_cid(bytes, pos) {
        Some((cid, next)) => Some((SmallCid::from(cid), next)),
        None => None,
    }
}

/// Two numbers written one after the other are read back one after the
/// other, whatever follows them.
pub proof fn lemma_two_varints_round_trip(m: nat, n: nat, rest: Seq<u8>)
    requires
        m <= u64::MAX,
        n <= u64::MAX,
    ensures
        parse_varint(varint(m) + varint(n) + rest, MAX_VARINT_LEN as nat) == Some(
            (m, varint(m).len()),
        ),
        parse_varint(
            (varint(m) + varint(n) + rest).skip(varint(m).len() as int),
            MAX_VARINT_LEN as nat,
        ) == Some((n, varint(n).len())),
        (varint(m) + varint(n) + rest).skip((varint(m).len() + varint(n).len()) as int) == rest,
{
    let s = varint(m) + varint(n) + rest;
    lemma_varint_len_u64(m);
    lemma_varint_len_u64(n);
    assert(s =~= varint(m) + (varint(n) + rest));
    lemma_varint_round_trip(m, varint(n) + rest, 10);
    assert(s.skip(varint(m).len() as int) =~= varint(n) + rest);
    lemma_varint_round_trip(n, rest, 10);
    assert(s.skip((varint(m).len() + varint(n).len()) as int) =~= rest);
}

/// Reading the binary form of a multihash gives the multihash back,
/// whatever follows it.
pub proof fn lemma_multihash_round_trip(h: MultihashView, rest: Seq<u8>)
    requires
        h.digest.len() <= 64,
    ensures
        parse_multihash(multihash_bytes(h) + rest) == Some((h, multihash_bytes(h).len())),
{
    let s = multihash_bytes(h) + rest;
    let code = varint(h.code as nat);
    let size = varint(h.digest.len());
    lemma_two_varints_round_trip(h.code as nat, h.digest.len(), h.digest + rest);
    assert(s =~= code + size + (h.digest + rest));
    let at = code.len() + size.len();
    assert(s.skip(at as int) == h.digest + rest);
    assert(s.subrange(at as int, (at + h.digest.len()) as int) =~= h.digest) by {
        assert(s.subrange(at as int, (at + h.digest.len()) as int) =~= s.skip(at as int).take(
            h.digest.len() as int,
        ));
    }
}

/// Reading the binary form of a well-formed identifier gives the
/// identifier back, whatever follows it.
pub proof fn lemma_cid_round_trip(c: CidView, rest: Seq<u8>)
    requires
        c.wf(),
    ensures
        parse_cid(cid_bytes(c) + rest) == Some((c, cid_bytes(c).len())),
{
    reveal(parse_cid);
    let s = cid_bytes(c) + rest;
    match c.version {
        Version::V0 => {
            let digest = c.hash.digest;
            lemma_two_varints_round_trip(0x12, 0x20, digest + rest);
            assert(s =~= varint(0x12) + varint(0x20) + (digest + rest));
            let at = varint(0x12).len() + varint(0x20).len();
            assert(s.skip(at as int) == digest + rest);
            assert(s.subrange(at as int, (at + 32) as int) =~= digest) by {
                assert(s.subrange(at as int, (at + 32) as int) =~= s.skip(at as int).take(32));
            }
        },
        Version::V1 => {
            let tail = multihash_bytes(c.hash) + rest;
            lemma_two_varints_round_trip(1, c.codec as nat, tail);
            assert(s =~= varint(1) + varint(c.codec as nat) + tail);
            lemma_multihash_round_trip(c.hash, rest);
            assert(varint(1) =~= seq![1u8]);
        },
    }
}

/// A frame: the length of what follows, the identifier, the blob.
pub open spec fn frame_bytes(cid: CidView, blob: Seq<u8>) -> Seq<u8> {
    varint(cid_bytes(cid).len() + blob.len()) + cid_bytes(cid) + blob
}

/// Frames one after another, in their order.
pub open spec fn frames_bytes(frames: Seq<(CidView, Seq<u8>)>) -> Seq<u8>
    decreases frames.len(),
{
    if frames.len() == 0 {
        Seq::empty()
    } else {
        frame_bytes(frames[0].0, frames[0].1) + frames_bytes(frames.drop_first())
    }
}

/// The frame at the front of `s` and the count of bytes it takes.
pub open spec fn parse_frame(s: Seq<u8>) -> Option<((CidView, Seq<u8>), nat)> {
    match parse_varint(s, MAX_VARINT_LEN as nat) {
        None => None,
        Some((len, a)) => if a + len > s.len() {
            None
        } else {
            let body = s.subrange(a as int, (a + len) as int);
            match parse_cid(body) {
                None => None,
                Some((cid, used)) => Some(((cid, body.skip(used as int)), a + len)),
            }
        },
    }
}

/// The frames that `s` is made of, where it is made of frames from its
/// first byte to its last.
pub open spec fn parse_frames(s: Seq<u8>) -> Option<Seq<(CidView, Seq<u8>)>>
    decreases s.len(),
{
    if s.len() == 0 {
        Some(Seq::empty())
    } else {
        match parse_frame(s) {
            None => None,
            Some((frame, used)) => if used == 0 || used > s.len() {
                None
            } else {
                match parse_frames(s.skip(used as int)) {
                    None => None,
                    Some(rest) => Some(seq![frame] + rest),
                }
            },
        }
    }
}

/// What a vector of frames stands for.
pub open spec fn frames_view(frames: Seq<(Cid, Vec<u8>)>) -> Seq<(CidView, Seq<u8>)> {
    Seq::new(frames.len(), |i: int| (frames[i].0@, frames[i].1@))
}

/// Appends the frame of `blob` under `cid`.
pub fn write_frame(cid: &Cid, blob: &[u8], out: &mut Vec<u8>)
    requires
        cid_bytes(cid@).len() + blob@.len() <= u64::MAX,
    ensures
        final(out)@ == old(out)@ + frame_bytes(cid@, blob@),
{
    let ghost start = out@;
    let mut id: Vec<u8> = Vec::new();
    write_cid(cid, &mut id);
    assert(id@ =~= cid_bytes(cid@));
    let len: u64 = id.len() as u64 + blob.len() as u64;
    write_varint(len, out);
    append(out, id.as_slice());
    append(out, blob);
    assert(out@ =~= start + frame_bytes(cid@, blob@));
}

/// Reads the frame that starts at `pos`: its identifier, its blob and the
/// position after it. `None` where the bytes hold no whole frame there.
pub fn read_frame(bytes: &[u8], pos: usize) -> (r: Option<(Cid, Vec<u8>, usize)>)
    ensures
        pos > bytes@.len() ==> r.is_none(),
        pos <= bytes@.len() ==> r.is_some() == parse_frame(bytes@.skip(pos as int)).is_some(),
        r.is_some() ==> pos < r.unwrap().2 <= bytes@.len() && parse_frame(bytes@.skip(pos as int))
            == Some(((r.unwrap().0@, r.unwrap().1@), (r.unwrap().2 - pos) as nat)),
{
    let ghost s = bytes@.skip(pos as int);
    let (len, at_body) = match read_varint(bytes, pos, MAX_VARINT_LEN) {
        Some(read) => read,
        None => { return None; },
    };
    if len > (bytes.len() - at_body) as u64 {
        return None;
    }
    let end: usize = at_body + len as usize;
    let body = copy_range(bytes, at_body, end);
    proof {
        assert(s.subrange(at_body - pos, end - pos) =~= body@);
        assert(body@.skip(0) =~= body@);
    }
    match read_cid(body.as_slice(), 0) {
        Some((cid, at_blob)) => {
            let blob = copy_range(body.as_slice(), at_blob, body.len());
            assert(blob@ =~= body@.skip(at_blob as int));
            Some((cid, blob, end))
        },
        None => None,
    }
}

/// `frames` followed by the frames of `tail`, where there are any.
pub open spec fn frames_then(
    frames: Seq<(CidView, Seq<u8>)>,
    tail: Option<Seq<(CidView, Seq<u8>)>>,
) -> Option<Seq<(CidView, Seq<u8>)>> {
    match tail {
        Some(rest) => Some(frames + rest),
        None => None,
    }
}

/// Reads every frame, in order. `None` unless the bytes are frames from
/// the first byte to the last.
pub fn read_frames(bytes: &[u8]) -> (r: Option<Vec<(Cid, Vec<u8>)>>)
    ensures
        match parse_frames(bytes@) {
            Some(frames) => r.is_some() && frames_view(r.unwrap()@) == frames,
            None => r.is_none(),
        },
{
    let mut frames: Vec<(Cid, Vec<u8>)> = Vec::new();
    let mut pos: usize = 0;
    proof {
        assert(bytes@.skip(0) =~= bytes@);
        assert(frames_view(frames@) =~= Seq::empty());
        assert(parse_frames(bytes@) == frames_then(frames_view(frames@), parse_frames(bytes@)))
            by {
            if let Some(rest) = parse_frames(bytes@) {
                assert(frames_view(frames@) + rest =~= rest);
            }
        }
    }
    while pos < bytes.len()
        invariant
            pos <= bytes@.len(),
            parse_frames(bytes@) == frames_then(
                frames_view(frames@),
                parse_frames(bytes@.skip(pos as int)),
            ),
        decreases bytes@.len() - pos,
    {
        let ghost s = bytes@.skip(pos as int);
        let ghost before = frames_view(frames@);
        match read_frame(bytes, pos) {
            Some((cid, blob, next)) => {
                let ghost frame = (cid@, blob@);
                frames.push((cid, blob));
                proof {
                    assert(s.skip(next - pos) =~= bytes@.skip(next as int));
                    assert(frames_view(frames@) =~= before + seq![frame]);
                    if let Some(rest) = parse_frames(bytes@.skip(next as int)) {
                        assert(before + (seq![frame] + rest) =~= (before + seq![frame]) + rest);
                    }
                }
                pos = next;
            },
            None => {
                return None;
            },
        }
    }
    proof {
        assert(frames_view(frames@) + Seq::<(CidView, Seq<u8>)>::empty() =~= frames_view(
            frames@,
        ));
    }
    Some(frames)
}

/// Reading a frame that was written gives its identifier and its blob
/// back, whatever follows it.
pub proof fn lemma_frame_round_trip(cid: CidView, blob: Seq<u8>, rest: Seq<u8>)
    requires
        cid.wf(),
        cid_bytes(cid).len() + blob.len() <= u64::MAX,
    ensures
        parse_frame(frame_bytes(cid, blob) + rest) == Some(
            ((cid, blob), frame_bytes(cid, blob).len()),
        ),
{
    let len = cid_bytes(cid).len() + blob.len();
    let s = frame_bytes(cid, blob) + rest;
    lemma_varint_len_u64(len);
    assert(s =~= varint(len) + (cid_bytes(cid) + blob + rest));
    lemma_varint_round_trip(len, cid_bytes(cid) + blob + rest, 10);
    let a = varint(len).len();
    let body = s.subrange(a as int, (a + len) as int);
    assert(body =~= cid_bytes(cid) + blob);
    lemma_cid_round_trip(cid, blob);
    assert(body.skip(cid_bytes(cid).len() as int) =~= blob);
}

/// Whether each identifier is well formed and each frame's length fits
/// 64 bits.
pub open spec fn writable(frames: Seq<(CidView, Seq<u8>)>) -> bool {
    forall|i: int|
        0 <= i < frames.len() ==> (#[trigger] frames[i]).0.wf() && cid_bytes(frames[i].0).len()
            + frames[i].1.len() <= u64::MAX
}

/// Reading the frames that were written gives exactly those frames, in
/// the order in which they were written.
pub proof fn lemma_frames_round_trip(frames: Seq<(CidView, Seq<u8>)>)
    requires
        writable(frames),
    ensures
        parse_frames(frames_bytes(frames)) == Some(frames),
    decreases frames.len(),
{
    if frames.len() > 0 {
        let first = frames[0];
        let rest = frames.drop_first();
        let s = frames_bytes(frames);
        assert(writable(rest)) by {
            assert forall|i: int| 0 <= i < rest.len() implies (#[trigger] rest[i]).0.wf()
                && cid_bytes(rest[i].0).len() + rest[i].1.len() <= u64::MAX by {
                assert(rest[i] == frames[i + 1]);
            }
        }
        lemma_frame_round_trip(first.0, first.1, frames_bytes(rest));
        lemma_varint_len_u64(cid_bytes(first.0).len() + first.1.len());
        let used = frame_bytes(first.0, first.1).len();
        assert(s.skip(used as int) =~= frames_bytes(rest));
        lemma_frames_round_trip(rest);
        assert(seq![first] + rest =~= frames);
    }
}

/// Writing one more frame appends it to what was written.
pub proof fn lemma_frames_bytes_push(frames: Seq<(CidView, Seq<u8>)>, cid: CidView, blob: Seq<u8>)
    ensures
        frames_bytes(frames.push((cid, blob))) == frames_bytes(frames) + frame_bytes(cid, blob),
    decreases frames.len(),
{
    let more = frames.push((cid, blob));
    if frames.len() == 0 {
        assert(more.drop_first() =~= Seq::empty());
        assert(more[0] == (cid, blob));
        assert(frames_bytes(more) == frame_bytes(cid, blob) + frames_bytes(more.drop_first()));
        assert(frames_bytes(more.drop_first()) =~= Seq::empty());
        assert(frames_bytes(frames) =~= Seq::empty());
        assert(frames_bytes(more) =~= frames_bytes(frames) + frame_bytes(cid, blob));
    } else {
        assert(more.drop_first() =~= frames.drop_first().push((cid, blob)));
        lemma_frames_bytes_push(frames.drop_first(), cid, blob);
        assert(more[0] == frames[0]);
        let head = frame_bytes(frames[0].0, frames[0].1);
        assert(frames_bytes(more) == head + frames_bytes(more.drop_first()));
        assert(frames_bytes(frames) == head + frames_bytes(frames.drop_first()));
        assert(frames_bytes(more) =~= frames_bytes(frames) + frame_bytes(cid, blob));
    }
}

/// The eight bytes that open and close an archive.
pub open spec fn magic() -> Seq<u8> {
    seq![0x46u8, 0x4fu8, 0x52u8, 0x45u8, 0x53u8, 0x54u8, 0x00u8, 0x01u8]
}

/// Version of the archive format.
pub const VERSION: u32 = 1;

/// Length of what stands before the roots: the magic bytes and the version.
pub const PREAMBLE_LEN: usize = 12;

/// Length of what closes an archive: the index offset and the magic bytes.
pub const FOOTER_LEN: usize = 16;

/// A 32-bit number in four bytes, most significant first.
pub open spec fn be32(n: u32) -> Seq<u8> {
    seq![
        (n / 0x1000000) as u8,
        (n / 0x10000 % 0x100) as u8,
        (n / 0x100 % 0x100) as u8,
        (n % 0x100) as u8,
    ]
}

/// The number that four bytes hold, most significant first.
pub open spec fn be32_value(s: Seq<u8>) -> nat
    recommends
        s.len() == 4,
{
    (s[0] * 0x1000000 + s[1] * 0x10000 + s[2] * 0x100 + s[3]) as nat
}

/// A 64-bit number in eight bytes, most significant first.
pub open spec fn be64(n: u64) -> Seq<u8> {
    be32((n / 0x100000000) as u32) + be32((n % 0x100000000) as u32)
}

/// The number that eight bytes hold, most significant first.
pub open spec fn be64_value(s: Seq<u8>) -> nat
    recommends
        s.len() == 8,
{
    be32_value(s.subrange(0, 4)) * 0x100000000 + be32_value(s.subrange(4, 8))
}

/// Appends `n` in four bytes, most significant first.
pub fn write_be32(n: u32, out: &mut Vec<u8>)
    ensures
        final(out)@ == old(out)@ + be32(n),
{
    out.push((n / 0x1000000) as u8);
    out.push((n / 0x10000 % 0x100) as u8);
    out.push((n / 0x100 % 0x100) as u8);
    out.push((n % 0x100) as u8);
    assert(out@ =~= old(out)@ + be32(n));
}

/// The number in the four bytes at `pos`, most significant first.
pub fn read_be32(bytes: &[u8], pos: usize) -> (n: u32)
    requires
        pos + 4 <= bytes@.len(),
    ensures
        n == be32_value(bytes@.subrange(pos as int, pos + 4)),
{
    let b0: u32 = bytes[pos] as u32;
    let b1: u32 = bytes[pos + 1] as u32;
    let b2: u32 = bytes[pos + 2] as u32;
    let b3: u32 = bytes[pos + 3] as u32;
    b0 * 0x1000000 + b1 * 0x10000 + b2 * 0x100 + b3
}

/// Appends `n` in eight bytes, most significant first.
pub fn write_be64(n: u64, out: &mut Vec<u8>)
    ensures
        final(out)@ == old(out)@ + be64(n),
{
    write_be32((n / 0x100000000) as u32, out);
    write_be32((n % 0x100000000) as u32, out);
    assert(out@ =~= old(out)@ + be64(n));
}

/// The number in the eight bytes at `pos`, most significant first.
pub fn read_be64(bytes: &[u8], pos: usize) -> (n: u64)
    requires
        pos + 8 <= bytes@.len(),
    ensures
        n == be64_value(bytes@.subrange(pos as int, pos + 8)),
{
    let ghost s = bytes@.subrange(pos as int, pos + 8);
    assert(s.subrange(0, 4) =~= bytes@.subrange(pos as int, pos + 4));
    assert(s.subrange(4, 8) =~= bytes@.subrange(pos + 4, pos + 8));
    let total: usize = bytes.len();
    assert(pos + 8 <= total);
    let high: u64 = read_be32(bytes, pos) as u64;
    let low: u64 = read_be32(bytes, pos + 4) as u64;
    high * 0x100000000 + low
}

/// Reading four bytes that were written gives the number back.
pub proof fn lemma_be32_round_trip(n: u32)
    ensures
        be32(n).len() == 4,
        be32_value(be32(n)) == n,
{
}

/// Reading eight bytes that were written gives the number back.
pub proof fn lemma_be64_round_trip(n: u64)
    ensures
        be64(n).len() == 8,
        be64_value(be64(n)) == n,
{
    let high = (n / 0x100000000) as u32;
    let low = (n % 0x100000000) as u32;
    lemma_be32_round_trip(high);
    lemma_be32_round_trip(low);
    assert(be64(n).subrange(0, 4) =~= be32(high));
    assert(be64(n).subrange(4, 8) =~= be32(low));
}

/// Identifiers one after another, in their order.
pub open spec fn cids_bytes(cids: Seq<CidView>) -> Seq<u8>
    decreases cids.len(),
{
    if cids.len() == 0 {
        Seq::empty()
    } else {
        cid_bytes(cids[0]) + cids_bytes(cids.drop_first())
    }
}

/// The roots of an archive: their count, then the identifiers.
pub open spec fn roots_bytes(roots: Seq<CidView>) -> Seq<u8> {
    varint(roots.len()) + cids_bytes(roots)
}

/// The `count` identifiers at the front of `s` and the count of bytes
/// they take.
pub open spec fn parse_cids(s: Seq<u8>, count: nat) -> Option<(Seq<CidView>, nat)>
    decreases count,
{
    if count == 0 {
        Some((Seq::empty(), 0))
    } else {
        match parse_cid(s) {
            None => None,
            Some((cid, used)) => if used > s.len() {
                None
            } else {
                cids_then(seq![cid], used, parse_cids(s.skip(used as int), (count - 1) as nat))
            },
        }
    }
}

/// `front`, which took `used` bytes, followed by what `tail` holds.
pub open spec fn cids_then(front: Seq<CidView>, used: nat, tail: Option<(Seq<CidView>, nat)>)
    -> Option<(Seq<CidView>, nat)> {
    match tail {
        Some((rest, more)) => Some((front + rest, used + more)),
        None => None,
    }
}

/// The roots at the front of `s` and the count of bytes they take.
pub open spec fn parse_roots(s: Seq<u8>) -> Option<(Seq<CidView>, nat)> {
    match parse_varint(s, MAX_VARINT_LEN as nat) {
        None => None,
        Some((count, a)) => cids_then(Seq::empty(), a, parse_cids(s.skip(a as int), count)),
    }
}

/// What a vector of identifiers stands for.
pub open spec fn cids_view(cids: Seq<Cid>) -> Seq<CidView> {
    Seq::new(cids.len(), |i: int| cids[i]@)
}

/// Why bytes are no archive.
#[derive(Clone, Copy, Debug, PartialEq, Eq, Hash, Structural)]
pub enum ArchiveError {
    /// Shorter than the shortest archive.
    Truncated,
    /// The magic bytes do not open the archive, or do not close it.
    BadMagic,
    /// A version other than [`VERSION`].
    BadVersion,
    /// The index offset points before the roots or into the footer.
    BadIndexOffset,
    /// The roots are no list of identifiers.
    BadRoots,
    /// What lies between the roots and the index is not made of frames.
    BadFrames,
}

/// An archive up to its footer: the magic bytes, the version, the roots
/// and the frames.
pub open spec fn archive_front(roots: Seq<CidView>, frames: Seq<(CidView, Seq<u8>)>) -> Seq<u8> {
    magic() + be32(VERSION) + roots_bytes(roots) + frames_bytes(frames)
}

/// A whole archive. The index offset is where the frames end.
pub open spec fn archive_bytes(roots: Seq<CidView>, frames: Seq<(CidView, Seq<u8>)>) -> Seq<u8> {
    let front = archive_front(roots, frames);
    front + be64(front.len() as u64) + magic()
}

/// The roots and the frames of an archive, or why the bytes are none.
/// The frames lie between the roots and the index offset.
pub open spec fn parse_archive(s: Seq<u8>) -> Result<
    (Seq<CidView>, Seq<(CidView, Seq<u8>)>),
    ArchiveError,
> {
    let len = s.len() as int;
    if len < PREAMBLE_LEN + FOOTER_LEN {
        Err(ArchiveError::Truncated)
    } else if s.subrange(0, 8) != magic() || s.subrange(len - 8, len) != magic() {
        Err(ArchiveError::BadMagic)
    } else if be32_value(s.subrange(8, 12)) != VERSION {
        Err(ArchiveError::BadVersion)
    } else {
        let index_offset = be64_value(s.subrange(len - 16, len - 8)) as int;
        if index_offset < PREAMBLE_LEN || index_offset > len - FOOTER_LEN {
            Err(ArchiveError::BadIndexOffset)
        } else {
            let body = s.subrange(PREAMBLE_LEN as int, index_offset);
            match parse_roots(body) {
                None => Err(ArchiveError::BadRoots),
                Some((roots, used)) => match parse_frames(body.skip(used as int)) {
                    None => Err(ArchiveError::BadFrames),
                    Some(frames) => Ok((roots, frames)),
                },
            }
        }
    }
}

/// Whether the magic bytes stand at `pos`.
fn has_magic(bytes: &[u8], pos: usize) -> (r: bool)
    requires
        pos + 8 <= bytes@.len(),
    ensures
        r == (bytes@.subrange(pos as int, pos + 8) == magic()),
{
    let total: usize = bytes.len();
    let ghost s = bytes@.subrange(pos as int, pos + 8);
    let r = bytes[pos] == 0x46 && bytes[pos + 1] == 0x4f && bytes[pos + 2] == 0x52 && bytes[pos
        + 3] == 0x45 && bytes[pos + 4] == 0x53 && bytes[pos + 5] == 0x54 && bytes[pos + 6] == 0x00
        && bytes[pos + 7] == 0x01;
    proof {
        assert(s[0] == bytes@[pos as int] && s[1] == bytes@[pos + 1] && s[2] == bytes@[pos + 2]
            && s[3] == bytes@[pos + 3] && s[4] == bytes@[pos + 4] && s[5] == bytes@[pos + 5]
            && s[6] == bytes@[pos + 6] && s[7] == bytes@[pos + 7]);
        if r {
            assert(s =~= magic());
        }
    }
    r
}

/// Appends the magic bytes.
fn write_magic(out: &mut Vec<u8>)
    ensures
        final(out)@ == old(out)@ + magic(),
{
    out.push(0x46);
    out.push(0x4f);
    out.push(0x52);
    out.push(0x45);
    out.push(0x53);
    out.push(0x54);
    out.push(0x00);
    out.push(0x01);
    assert(out@ =~= old(out)@ + magic());
}

/// One more identifier is appended to what the others take.
pub proof fn lemma_cids_bytes_push(cids: Seq<CidView>, cid: CidView)
    ensures
        cids_bytes(cids.push(cid)) == cids_bytes(cids) + cid_bytes(cid),
    decreases cids.len(),
{
    let more = cids.push(cid);
    if cids.len() == 0 {
        assert(more.drop_first() =~= Seq::empty());
        assert(more[0] == cid);
        assert(cids_bytes(more) == cid_bytes(cid) + cids_bytes(more.drop_first()));
        assert(cids_bytes(more.drop_first()) =~= Seq::empty());
        assert(cids_bytes(cids) =~= Seq::empty());
        assert(cids_bytes(more) =~= cids_bytes(cids) + cid_bytes(cid));
    } else {
        assert(more.drop_first() =~= cids.drop_first().push(cid));
        lemma_cids_bytes_push(cids.drop_first(), cid);
        assert(more[0] == cids[0]);
        assert(cids_bytes(more) == cid_bytes(cids[0]) + cids_bytes(more.drop_first()));
        assert(cids_bytes(cids) == cid_bytes(cids[0]) + cids_bytes(cids.drop_first()));
        assert(cids_bytes(more) =~= cids_bytes(cids) + cid_bytes(cid));
    }
}

/// Opens an archive: appends the magic bytes, the version and the roots.
pub fn write_preamble(roots: &[Cid], out: &mut Vec<u8>)
    ensures
        final(out)@ == old(out)@ + magic() + be32(VERSION) + roots_bytes(cids_view(roots@)),
{
    let ghost start = out@;
    write_magic(out);
    write_be32(VERSION, out);
    write_varint(roots.len() as u64, out);
    let ghost head = out@;
    let mut i: usize = 0;
    assert(cids_view(roots@).take(0) =~= Seq::empty());
    assert(out@ =~= head + cids_bytes(cids_view(roots@).take(0)));
    while i < roots.len()
        invariant
            i <= roots@.len(),
            out@ == head + cids_bytes(cids_view(roots@).take(i as int)),
        decreases roots@.len() - i,
    {
        write_cid(&roots[i], out);
        proof {
            let all = cids_view(roots@);
            assert(all.take(i + 1) =~= all.take(i as int).push(roots@[i as int]@));
            lemma_cids_bytes_push(all.take(i as int), roots@[i as int]@);
            assert(out@ =~= head + cids_bytes(all.take(i + 1)));
        }
        i += 1;
    }
    proof {
        assert(cids_view(roots@).take(i as int) =~= cids_view(roots@));
        assert(out@ =~= start + magic() + be32(VERSION) + roots_bytes(cids_view(roots@)));
    }
}

/// Closes an archive: appends the index offset, which is where the
/// frames end, and the magic bytes.
pub fn write_footer(out: &mut Vec<u8>)
    ensures
        final(out)@ == old(out)@ + be64(old(out)@.len() as u64) + magic(),
{
    let offset: u64 = out.len() as u64;
    write_be64(offset, out);
    write_magic(out);
}

/// Reads the roots that start at `pos`: the identifiers and the position
/// after them.
pub fn read_roots(bytes: &[u8], pos: usize) -> (r: Option<(Vec<Cid>, usize)>)
    ensures
        pos > bytes@.len() ==> r.is_none(),
        pos <= bytes@.len() ==> match parse_roots(bytes@.skip(pos as int)) {
            Some((roots, used)) => r.is_some() && cids_view(r.unwrap().0@) == roots
                && r.unwrap().1 == pos + used && pos + used <= bytes@.len(),
            None => r.is_none(),
        },
{
    let (count, start) = match read_varint(bytes, pos, MAX_VARINT_LEN) {
        Some(read) => read,
        None => { return None; },
    };
    let ghost s = bytes@.skip(start as int);
    assert(bytes@.skip(pos as int).skip(start - pos) =~= s);
    let mut roots: Vec<Cid> = Vec::new();
    let mut at: usize = start;
    let mut i: u64 = 0;
    proof {
        assert(cids_view(roots@) =~= Seq::empty());
        if let Some((rest, more)) = parse_cids(s, count as nat) {
            assert(cids_view(roots@) + rest =~= rest);
        }
    }
    while i < count
        invariant
            i <= count,
            pos <= start <= at <= bytes@.len(),
            s == bytes@.skip(start as int),
            parse_roots(bytes@.skip(pos as int)) == cids_then(
                Seq::empty(),
                (start - pos) as nat,
                parse_cids(s, count as nat),
            ),
            parse_cids(s, count as nat) == cids_then(
                cids_view(roots@),
                (at - start) as nat,
                parse_cids(bytes@.skip(at as int), (count - i) as nat),
            ),
        decreases count - i,
    {
        let ghost before = cids_view(roots@);
        match read_cid(bytes, at) {
            Some((cid, next)) => {
                let ghost c = cid@;
                roots.push(cid);
                proof {
                    assert(bytes@.skip(at as int).skip(next - at) =~= bytes@.skip(next as int));
                    assert(cids_view(roots@) =~= before + seq![c]);
                    if let Some((rest, more)) = parse_cids(
                        bytes@.skip(next as int),
                        (count - i - 1) as nat,
                    ) {
                        assert(before + (seq![c] + rest) =~= (before + seq![c]) + rest);
                    }
                }
                at = next;
                i += 1;
            },
            None => {
                return None;
            },
        }
    }
    proof {
        assert(cids_view(roots@) + Seq::<CidView>::empty() =~= cids_view(roots@));
        if let Some((all, used)) = parse_cids(s, count as nat) {
            assert(Seq::<CidView>::empty() + all =~= all);
        }
    }
    Some((roots, at))
}

/// Reads an archive: its roots, and its frames in the order in which they
/// were written. The frames are read one after another from where the
/// roots end to the index offset; the index is not consulted.
pub fn read_archive(bytes: &[u8]) -> (r: Result<(Vec<Cid>, Vec<(Cid, Vec<u8>)>), ArchiveError>)
    ensures
        match parse_archive(bytes@) {
            Ok((roots, frames)) => r.is_ok() && cids_view(r.unwrap().0@) == roots && frames_view(
                r.unwrap().1@,
            ) == frames,
            Err(error) => r.is_err() && r.unwrap_err() == error,
        },
{
    let len: usize = bytes.len();
    if len < PREAMBLE_LEN + FOOTER_LEN {
        return Err(ArchiveError::Truncated);
    }
    if !has_magic(bytes, 0) || !has_magic(bytes, len - 8) {
        return Err(ArchiveError::BadMagic);
    }
    if read_be32(bytes, 8) != VERSION {
        return Err(ArchiveError::BadVersion);
    }
    let index_offset: u64 = read_be64(bytes, len - 16);
    if index_offset < PREAMBLE_LEN as u64 || index_offset > (len - FOOTER_LEN) as u64 {
        return Err(ArchiveError::BadIndexOffset);
    }
    let body = copy_range(bytes, PREAMBLE_LEN, index_offset as usize);
    assert(body@.skip(0) =~= body@);
    let (roots, at_frames) = match read_roots(body.as_slice(), 0) {
        Some(read) => read,
        None => { return Err(ArchiveError::BadRoots); },
    };
    let framed = copy_range(body.as_slice(), at_frames, body.len());
    assert(framed@ =~= body@.skip(at_frames as int));
    match read_frames(framed.as_slice()) {
        Some(frames) => Ok((roots, frames)),
        None => Err(ArchiveError::BadFrames),
    }
}

/// Writes a whole archive: the roots, then the frames in their order.
pub fn write_archive(roots: &[Cid], frames: &[(Cid, Vec<u8>)]) -> (out: Vec<u8>)
    requires
        forall|i: int|
            0 <= i < frames@.len() ==> cid_bytes((#[trigger] frames@[i]).0@).len()
                + frames@[i].1@.len() <= u64::MAX,
    ensures
        out@ == archive_bytes(cids_view(roots@), frames_view(frames@)),
{
    let mut out: Vec<u8> = Vec::new();
    write_preamble(roots, &mut out);
    let ghost head = out@;
    assert(head =~= magic() + be32(VERSION) + roots_bytes(cids_view(roots@)));
    let mut i: usize = 0;
    assert(frames_view(frames@).take(0) =~= Seq::empty());
    assert(out@ =~= head + frames_bytes(frames_view(frames@).take(0)));
    while i < frames.len()
        invariant
            i <= frames@.len(),
            out@ == head + frames_bytes(frames_view(frames@).take(i as int)),
            forall|j: int|
                0 <= j < frames@.len() ==> cid_bytes((#[trigger] frames@[j]).0@).len()
                    + frames@[j].1@.len() <= u64::MAX,
        decreases frames@.len() - i,
    {
        write_frame(&frames[i].0, frames[i].1.as_slice(), &mut out);
        proof {
            let all = frames_view(frames@);
            let frame = frames@[i as int];
            assert(all.take(i + 1) =~= all.take(i as int).push((frame.0@, frame.1@)));
            lemma_frames_bytes_push(all.take(i as int), frame.0@, frame.1@);
            assert(out@ =~= head + frames_bytes(all.take(i + 1)));
        }
        i += 1;
    }
    proof {
        assert(frames_view(frames@).take(i as int) =~= frames_view(frames@));
        assert(out@ =~= archive_front(cids_view(roots@), frames_view(frames@)));
    }
    write_footer(&mut out);
    out
}

/// Where the first frame of `id` stands among `frames`, if there is one.
pub fn lookup(frames: &[(Cid, Vec<u8>)], id: &Cid) -> (at: Option<usize>)
    ensures
        match at {
            Some(i) => i < frames@.len() && frames@[i as int].0@ == id@ && forall|j: int|
                0 <= j < i ==> (#[trigger] frames@[j]).0@ != id@,
            None => forall|j: int| 0 <= j < frames@.len() ==> (#[trigger] frames@[j]).0@ != id@,
        },
{
    let mut i: usize = 0;
    while i < frames.len()
        invariant
            i <= frames@.len(),
            forall|j: int| 0 <= j < i ==> (#[trigger] frames@[j]).0@ != id@,
        decreases frames@.len() - i,
    {
        if same_cid(&frames[i].0, id) {
            return Some(i);
        }
        i += 1;
    }
    None
}

/// Reading identifiers that were written one after another gives them
/// back, whatever follows them.
pub proof fn lemma_cids_round_trip(cids: Seq<CidView>, rest: Seq<u8>)
    requires
        forall|i: int| 0 <= i < cids.len() ==> (#[trigger] cids[i]).wf(),
    ensures
        parse_cids(cids_bytes(cids) + rest, cids.len()) == Some((cids, cids_bytes(cids).len())),
    decreases cids.len(),
{
    if cids.len() > 0 {
        let tail = cids.drop_first();
        let s = cids_bytes(cids) + rest;
        assert(s =~= cid_bytes(cids[0]) + (cids_bytes(tail) + rest));
        lemma_cid_round_trip(cids[0], cids_bytes(tail) + rest);
        assert(s.skip(cid_bytes(cids[0]).len() as int) =~= cids_bytes(tail) + rest);
        assert forall|i: int| 0 <= i < tail.len() implies (#[trigger] tail[i]).wf() by {
            assert(tail[i] == cids[i + 1]);
        }
        lemma_cids_round_trip(tail, rest);
        assert(seq![cids[0]] + tail =~= cids);
    }
}

/// Reading an archive that was written gives exactly its roots and its
/// frames, in the order in which they were written.
pub proof fn lemma_archive_round_trip(roots: Seq<CidView>, frames: Seq<(CidView, Seq<u8>)>)
    requires
        forall|i: int| 0 <= i < roots.len() ==> (#[trigger] roots[i]).wf(),
        writable(frames),
        roots.len() <= u64::MAX,
        archive_front(roots, frames).len() <= u64::MAX,
    ensures
        parse_archive(archive_bytes(roots, frames)) == Ok::<
            (Seq<CidView>, Seq<(CidView, Seq<u8>)>),
            ArchiveError,
        >((roots, frames)),
{
    let front = archive_front(roots, frames);
    let s = archive_bytes(roots, frames);
    let len = s.len() as int;
    let listed = cids_bytes(roots);
    let framed = frames_bytes(frames);
    lemma_be32_round_trip(VERSION);
    lemma_be64_round_trip(front.len() as u64);
    lemma_varint_len_u64(roots.len());
    assert(len == front.len() + 16);
    assert(front.len() >= 13);
    assert(s.subrange(0, 8) =~= magic());
    assert(s.subrange(len - 8, len) =~= magic());
    assert(s.subrange(8, 12) =~= be32(VERSION));
    assert(s.subrange(len - 16, len - 8) =~= be64(front.len() as u64));
    let body = s.subrange(12, front.len() as int);
    assert(body =~= varint(roots.len()) + (listed + framed));
    lemma_varint_round_trip(roots.len(), listed + framed, 10);
    let a = varint(roots.len()).len();
    assert(body.skip(a as int) =~= listed + framed);
    lemma_cids_round_trip(roots, framed);
    assert(Seq::<CidView>::empty() + roots =~= roots);
    assert(body.skip((a + listed.len()) as int) =~= framed);
    lemma_frames_round_trip(frames);
}

} // verus!
