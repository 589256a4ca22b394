//! Content identifiers and their compact in-memory form.
//!
//! A [`Cid`] holds a version, a codec and a multihash as plain values. Nearly
//! every identifier on chain is version 1, DAG-CBOR, hashed with 256-bit
//! BLAKE2b, so [`SmallCid`] keeps only the 32 digest bytes of those and boxes
//! every other identifier.

use vstd::prelude::*;

verus! {

/// Length in bytes of a 256-bit BLAKE2b digest.
pub const BLAKE2B256_SIZE: usize = 32;

/// Multicodec code of DAG-CBOR.
pub const DAG_CBOR: u64 = 0x71;

/// Multicodec code of DAG-PB, the only codec of a version 0 identifier.
pub const DAG_PB: u64 = 0x70;

/// Multihash code of 256-bit SHA-2, the only hash of a version 0 identifier.
pub const SHA2_256: u64 = 0x12;

/// Multihash code of 256-bit BLAKE2b.
pub const BLAKE2B256: u64 = 0xb220;

/// Largest digest, in bytes, that a [`Multihash`] holds.
pub const MAX_DIGEST_SIZE: usize = 64;

/// Version of an identifier.
#[derive(Clone, Copy, Debug, PartialEq, Eq, Hash, Structural)]
pub enum Version {
    V0,
    V1,
}

/// What a [`Multihash`] stands for: a hash code and the digest bytes.
pub ghost struct MultihashView {
    pub code: u64,
    pub digest: Seq<u8>,
}

/// What a [`Cid`] stands for.
pub ghost struct CidView {
    pub version: Version,
    pub codec: u64,
    pub hash: MultihashView,
}

/// What a [`SmallCid`] stands for: the digest alone, or a whole identifier.
pub ghost enum SmallCidView {
    Other(CidView),
    V1DagCborBlake2b(Seq<u8>),
}

impl CidView {
    /// Version 1, DAG-CBOR, 256-bit BLAKE2b with a digest of 32 bytes.
    pub open spec fn is_v1_dag_cbor_blake2b(self) -> bool {
        &&& self.version == Version::V1
        &&& self.codec == DAG_CBOR
        &&& self.hash.code == BLAKE2B256
        &&& self.hash.digest.len() == BLAKE2B256_SIZE
    }

    /// The identifier that version 1, DAG-CBOR and 256-bit BLAKE2b make of a digest.
    pub open spec fn v1_dag_cbor_blake2b(digest: Seq<u8>) -> CidView {
        CidView {
            version: Version::V1,
            codec: DAG_CBOR,
            hash: MultihashView { code: BLAKE2B256, digest },
        }
    }

    /// The one compact form of this identifier.
    pub open spec fn canonical(self) -> SmallCidView {
        if self.is_v1_dag_cbor_blake2b() {
            SmallCidView::V1DagCborBlake2b(self.hash.digest)
        } else {
            SmallCidView::Other(self)
        }
    }

    /// What the constructors of [`Cid`] admit: a version 0 identifier is
    /// DAG-PB with a 32-byte SHA-2 digest.
    pub open spec fn wf(self) -> bool {
        &&& self.hash.digest.len() <= MAX_DIGEST_SIZE
        &&& self.version == Version::V0 ==> {
            &&& self.codec == DAG_PB
            &&& self.hash.code == SHA2_256
            &&& self.hash.digest.len() == 32
        }
    }
}

impl SmallCidView {
    /// The identifier that this compact form stands for.
    pub open spec fn cid(self) -> CidView {
        match self {
            SmallCidView::Other(c) => c,
            SmallCidView::V1DagCborBlake2b(digest) => CidView::v1_dag_cbor_blake2b(digest),
        }
    }

    /// No boxed identifier could have been stored as a bare digest.
    pub open spec fn is_canonical(self) -> bool {
        match self {
            SmallCidView::Other(c) => !c.is_v1_dag_cbor_blake2b(),
            SmallCidView::V1DagCborBlake2b(digest) => digest.len() == BLAKE2B256_SIZE,
        }
    }
}

/// Error of [`Multihash::wrap`] and [`Cid::new`].
#[derive(Clone, Copy, Debug, PartialEq, Eq, Hash, Structural)]
pub enum Error {
    /// The digest is longer than [`MAX_DIGEST_SIZE`]; holds its length.
    InvalidSize(u64),
    /// Version 0 with a codec other than DAG-PB.
    InvalidCidV0Codec,
    /// Version 0 with a hash other than a 32-byte SHA-2.
    InvalidCidV0Multihash,
}

/// A fresh vector with the bytes of `input`.
pub fn copy_bytes(input: &[u8]) -> (out: Vec<u8>)
    ensures
        out@ == input@,
{
    let mut out: Vec<u8> = Vec::new();
    let mut i: usize = 0;
    while i < input.len()
        invariant
            i <= input@.len(),
            out@ == input@.take(i as int),
        decreases input@.len() - i,
    {
        out.push(input[i]);
        i += 1;
        assert(out@ =~= input@.take(i as int));
    }
    assert(out@ =~= input@);
    out
}

/// A hash code with a digest of at most [`MAX_DIGEST_SIZE`] bytes.
#[derive(Debug, PartialEq, Eq, Hash)]
pub struct Multihash {
    code: u64,
    digest: Vec<u8>,
}

impl View for Multihash {
    type V = MultihashView;

    closed spec fn view(&self) -> MultihashView {
        MultihashView { code: self.code, digest: self.digest@ }
    }
}

impl Clone for Multihash {
    fn clone(&self) -> (r: Multihash)
        ensures
            r@ == self@,
    {
        proof {
            use_type_invariant(self);
        }
        Multihash { code: self.code, digest: copy_bytes(self.digest.as_slice()) }
    }
}

impl Multihash {
    #[verifier::type_invariant]
    spec fn inv(self) -> bool {
        self.digest@.len() <= MAX_DIGEST_SIZE
    }

    /// Wraps a digest with its hash code; refuses one longer than
    /// [`MAX_DIGEST_SIZE`].
    pub fn wrap(code: u64, input_digest: &[u8]) -> (r: Result<Multihash, Error>)
        ensures
            input_digest@.len() <= MAX_DIGEST_SIZE ==> r.is_ok() && r.unwrap()@ == (MultihashView {
                code,
                digest: input_digest@,
            }),
            input_digest@.len() > MAX_DIGEST_SIZE ==> r == Err::<Multihash, Error>(
                Error::InvalidSize(input_digest@.len() as u64),
            ),
    {
        if input_digest.len() > MAX_DIGEST_SIZE {
            return Err(Error::InvalidSize(input_digest.len() as u64));
        }
        let digest = copy_bytes(input_digest);
        Ok(Multihash { code, digest })
    }

    /// The hash code.
    pub fn code(&self) -> (c: u64)
        ensures
            c == self@.code,
    {
        self.code
    }

    /// Number of digest bytes.
    pub fn size(&self) -> (n: u8)
        ensures
            n == self@.digest.len(),
            n <= MAX_DIGEST_SIZE,
    {
        proof {
            use_type_invariant(self);
        }
        self.digest.len() as u8
    }

    /// The digest bytes.
    pub fn digest(&self) -> (d: &[u8])
        ensures
            d@ == self@.digest,
    {
        self.digest.as_slice()
    }
}


/// An identifier of immutable content: version, codec and multihash.
#[derive(Debug, PartialEq, Eq, Hash)]
pub struct Cid {
    version: Version,
    codec: u64,
    hash: Multihash,
}

impl View for Cid {
    type V = CidView;

    closed spec fn view(&self) -> CidView {
        CidView { version: self.version, codec: self.codec, hash: self.hash@ }
    }
}

impl Clone for Cid {
    fn clone(&self) -> (r: Cid)
        ensures
            r@ == self@,
    {
        proof {
            use_type_invariant(self);
        }
        Cid { version: self.version, codec: self.codec, hash: self.hash.clone() }
    }
}

impl Cid {
    #[verifier::type_invariant]
    spec fn inv(self) -> bool {
        self@.wf()
    }

    /// A version 0 identifier: only for a 32-byte SHA-2 digest.
    pub fn new_v0(hash: Multihash) -> (r: Result<Cid, Error>)
        ensures
            hash@.code == SHA2_256 && hash@.digest.len() == 32 ==> r.is_ok() && r.unwrap()@ == (CidView {
                version: Version::V0,
                codec: DAG_PB,
                hash: hash@,
            }),
            !(hash@.code == SHA2_256 && hash@.digest.len() == 32) ==> r == Err::<Cid, Error>(
                Error::InvalidCidV0Multihash,
            ),
    {
        if hash.code() != SHA2_256 || hash.size() != 32 {
            return Err(Error::InvalidCidV0Multihash);
        }
        Ok(Cid { version: Version::V0, codec: DAG_PB, hash })
    }

    /// A version 1 identifier of any codec and hash.
    pub fn new_v1(codec: u64, hash: Multihash) -> (r: Cid)
        ensures
            r@ == (CidView { version: Version::V1, codec, hash: hash@ }),
    {
        proof {
            use_type_invariant(&hash);
        }
        Cid { version: Version::V1, codec, hash }
    }

    /// An identifier of the given version; version 0 admits only DAG-PB
    /// with a 32-byte SHA-2 digest.
    pub fn new(version: Version, codec: u64, hash: Multihash) -> (r: Result<Cid, Error>)
        ensures
            (CidView { version, codec, hash: hash@ }).wf() ==> r.is_ok() && r.unwrap()@ == (CidView {
                version,
                codec,
                hash: hash@,
            }),
            version == Version::V0 && codec != DAG_PB ==> r == Err::<Cid, Error>(
                Error::InvalidCidV0Codec,
            ),
            version == Version::V0 && codec == DAG_PB && !(hash@.code == SHA2_256
                && hash@.digest.len() == 32) ==> r == Err::<Cid, Error>(
                Error::InvalidCidV0Multihash,
            ),
    {
        proof {
            use_type_invariant(&hash);
        }
        match version {
            Version::V0 => {
                if codec != DAG_PB {
                    return Err(Error::InvalidCidV0Codec);
                }
                Cid::new_v0(hash)
            },
            Version::V1 => Ok(Cid::new_v1(codec, hash)),
        }
    }

    /// The version.
    pub fn version(&self) -> (v: Version)
        ensures
            v == self@.version,
    {
        self.version
    }

    /// The codec.
    pub fn codec(&self) -> (c: u64)
        ensures
            c == self@.codec,
    {
        self.codec
    }

    /// The multihash.
    pub fn hash(&self) -> (h: &Multihash)
        ensures
            h@ == self@.hash,
            self@.wf(),
    {
        proof {
            use_type_invariant(self);
        }
        &self.hash
    }
}

/// Whether two identifiers are the same.
pub fn same_cid(a: &Cid, b: &Cid) -> (same: bool)
    ensures
        same == (a@ == b@),
{
    let ha = a.hash();
    let hb = b.hash();
    if a.version() != b.version() || a.codec() != b.codec() || ha.code() != hb.code() || ha.size()
        != hb.size() {
        return false;
    }
    let da = ha.digest();
    let db = hb.digest();
    let mut i: usize = 0;
    while i < da.len()
        invariant
            i <= da@.len(),
            da@.len() == db@.len(),
            da@ == a@.hash.digest,
            db@ == b@.hash.digest,
            a@.version == b@.version,
            a@.codec == b@.codec,
            a@.hash.code == b@.hash.code,
            forall|j: int| 0 <= j < i ==> da@[j] == db@[j],
        decreases da@.len() - i,
    {
        if da[i] != db[i] {
            return false;
        }
        i += 1;
    }
    assert(da@ =~= db@);
    true
}

/// The 32 bytes of `bytes` as an array.
fn to_array(bytes: &[u8]) -> (out: [u8; 32])
    requires
        bytes@.len() == 32,
    ensures
        out@ == bytes@,
{
    let mut out: [u8; 32] = [0u8; 32];
    let mut i: usize = 0;
    while i < 32
        invariant
            i <= 32,
            bytes@.len() == 32,
            out@.len() == 32,
            forall|j: int| 0 <= j < i ==> out@[j] == bytes@[j],
        decreases 32 - i,
    {
        out[i] = bytes[i];
        i += 1;
    }
    assert(out@ =~= bytes@);
    out
}


/// The 256-bit BLAKE2b digest of a byte string.
pub uninterp spec fn blake2b256(input: Seq<u8>) -> Seq<u8>;

/// `multihash_codetable::Code::Blake2b256.digest(input)`: the multihash of
/// `input` under 256-bit BLAKE2b. Its code is [`BLAKE2B256`] and its digest,
/// which depends on the input bytes alone, is 32 bytes long.
#[verifier::external_body]
fn blake2b256_digest(input: &[u8]) -> (hash: Multihash)
    ensures
        hash@ == (MultihashView { code: BLAKE2B256, digest: blake2b256(input@) }),
        hash@.digest.len() == BLAKE2B256_SIZE,
{
    let hash = multihash_codetable::MultihashDigest::digest(
        &multihash_codetable::Code::Blake2b256,
        input,
    );
    Multihash { code: hash.code(), digest: hash.digest().to_vec() }
}

/// `u64::from(multihash_codetable::Code::Blake2b256)`: the multihash code of
/// 256-bit BLAKE2b.
#[verifier::external_body]
fn blake2b256_code() -> (code: u64)
    ensures
        code == BLAKE2B256,
{
    u64::from(multihash_codetable::Code::Blake2b256)
}

/// `fvm_ipld_encoding::DAG_CBOR`: the multicodec code of DAG-CBOR.
#[verifier::external_body]
fn dag_cbor_codec() -> (codec: u64)
    ensures
        codec == DAG_CBOR,
{
    fvm_ipld_encoding::DAG_CBOR
}

/// Construction of DAG-CBOR identifiers.
pub trait CidCborExt: Sized {
    /// The identifier of an object from its DAG-CBOR encoding: version 1,
    /// DAG-CBOR, and the 256-bit BLAKE2b digest of the encoded bytes.
    fn from_cbor_blake2b256(encoded: &[u8]) -> (cid: Cid)
        ensures
            cid@ == CidView::v1_dag_cbor_blake2b(blake2b256(encoded@)),
            cid@.is_v1_dag_cbor_blake2b(),
    {
        Cid::new_v1(dag_cbor_codec(), blake2b256_digest(encoded))
    }
}

impl CidCborExt for Cid {

}

#[derive(Clone, Debug, PartialEq, Eq, Hash)]
enum SmallCidInner {
    Other(Box<Cid>),
    V1DagCborBlake2b([u8; 32]),
}

impl View for SmallCidInner {
    type V = SmallCidView;

    closed spec fn view(&self) -> SmallCidView {
        match self {
            SmallCidInner::Other(cid) => SmallCidView::Other(cid@),
            SmallCidInner::V1DagCborBlake2b(digest) => SmallCidView::V1DagCborBlake2b(digest@),
        }
    }
}

impl SmallCidInner {
    /// The compact form of `cid`: the bare digest wherever the identifier is
    /// version 1, DAG-CBOR and 256-bit BLAKE2b, the boxed identifier otherwise.
    fn canonical(cid: Cid) -> (r: SmallCidInner)
        ensures
            r@ == cid@.canonical(),
            r@.is_canonical(),
    {
        if cid.version() == Version::V1 && cid.codec() == dag_cbor_codec() {
            let hash = cid.hash();
            if hash.code() == blake2b256_code() && hash.size() as usize == BLAKE2B256_SIZE {
                return SmallCidInner::V1DagCborBlake2b(to_array(hash.digest()));
            }
        }
        SmallCidInner::Other(Box::new(cid))
    }
}

/// An identifier in compact form. Version 1 DAG-CBOR identifiers hashed with
/// 256-bit BLAKE2b take 40 bytes here; any other identifier is boxed.
///
/// The form is canonical: an identifier that can be held as a bare digest is
/// never boxed, so two values are equal exactly when their identifiers are.
#[derive(Debug, PartialEq, Eq, Hash)]
pub struct SmallCid(SmallCidInner);

impl View for SmallCid {
    type V = SmallCidView;

    closed spec fn view(&self) -> SmallCidView {
        self.0@
    }
}

impl SmallCid {
    #[verifier::type_invariant]
    spec fn inv(self) -> bool {
        self@.is_canonical()
    }

    /// Whether the identifier is held as a bare digest.
    pub fn is_v1_dag_cbor_blake2b(&self) -> (b: bool)
        ensures
            b == (self@ is V1DagCborBlake2b),
            b == self@.cid().is_v1_dag_cbor_blake2b(),
    {
        proof {
            use_type_invariant(self);
        }
        match &self.0 {
            SmallCidInner::Other(_) => false,
            SmallCidInner::V1DagCborBlake2b(_) => true,
        }
    }

    /// The identifier in full.
    pub fn cid(&self) -> (cid: Cid)
        ensures
            cid@ == self@.cid(),
            self@.is_canonical(),
    {
        proof {
            use_type_invariant(self);
        }
        match &self.0 {
            SmallCidInner::Other(cid) => (**cid).clone(),
            SmallCidInner::V1DagCborBlake2b(digest) => {
                let hash = Multihash::wrap(blake2b256_code(), digest.as_slice());
                Cid::new_v1(dag_cbor_codec(), hash.unwrap())
            },
        }
    }
}

impl Clone for SmallCid {
    fn clone(&self) -> (r: SmallCid)
        ensures
            r@ == self@,
    {
        proof {
            use_type_invariant(self);
        }
        match &self.0 {
            SmallCidInner::Other(cid) => SmallCid(SmallCidInner::Other(Box::new((**cid).clone()))),
            SmallCidInner::V1DagCborBlake2b(digest) => SmallCid(
                SmallCidInner::V1DagCborBlake2b(*digest),
            ),
        }
    }
}

impl From<Cid> for SmallCid {
    fn from(cid: Cid) -> (r: SmallCid)
        ensures
            r@ == cid@.canonical(),
    {
        SmallCid(SmallCidInner::canonical(cid))
    }
}

/// The conversion is stated over views, by the `ensures` of `from`.
impl vstd::std_specs::convert::FromSpecImpl<Cid> for SmallCid {
    open spec fn obeys_from_spec() -> bool {
        false
    }

    open spec fn from_spec(cid: Cid) -> SmallCid {
        arbitrary()
    }
}

impl<'a> From<&'a SmallCid> for Cid {
    fn from(variant: &'a SmallCid) -> (r: Cid)
        ensures
            r@ == variant@.cid(),
    {
        variant.cid()
    }
}

/// The conversion is stated over views, by the `ensures` of `from`.
impl<'a> vstd::std_specs::convert::FromSpecImpl<&'a SmallCid> for Cid {
    open spec fn obeys_from_spec() -> bool {
        false
    }

    open spec fn from_spec(variant: &'a SmallCid) -> Cid {
        arbitrary()
    }
}

/// The conversion is stated over views, by the `ensures` of `from`.
impl vstd::std_specs::convert::FromSpecImpl<SmallCid> for Cid {
    open spec fn obeys_from_spec() -> bool {
        false
    }

    open spec fn from_spec(variant: SmallCid) -> Cid {
        arbitrary()
    }
}

impl From<SmallCid> for Cid {
    fn from(variant: SmallCid) -> (r: Cid)
        ensures
            r@ == variant@.cid(),
    {
        variant.cid()
    }
}

/// Expanding the compact form of an identifier gives the identifier back,
/// and an identifier that is version 1, DAG-CBOR and 256-bit BLAKE2b is
/// held as a bare digest.
pub proof fn lemma_canonical_round_trip(c: CidView)
    ensures
        c.canonical().cid() == c,
        c.canonical().is_canonical(),
        c.is_v1_dag_cbor_blake2b() <==> c.canonical() is V1DagCborBlake2b,
{
}

/// Compacting again what a compact form expands to changes nothing.
pub proof fn lemma_canonical_idempotent(c: CidView)
    ensures
        c.canonical().cid().canonical() == c.canonical(),
{
}

/// A canonical compact form is the compact form of its own identifier.
pub proof fn lemma_canonical_of_cid(s: SmallCidView)
    requires
        s.is_canonical(),
    ensures
        s.cid().canonical() == s,
{
}

/// Equality agrees between the two representations: canonical compact forms
/// are equal exactly when the identifiers they stand for are equal.
pub proof fn lemma_equality_agrees(a: SmallCidView, b: SmallCidView)
    requires
        a.is_canonical(),
        b.is_canonical(),
    ensures
        a == b <==> a.cid() == b.cid(),
{
    lemma_canonical_of_cid(a);
    lemma_canonical_of_cid(b);
}

/// Distinct identifiers never share a compact form.
pub proof fn lemma_canonical_injective(c: CidView, d: CidView)
    ensures
        c.canonical() == d.canonical() <==> c == d,
{
    lemma_canonical_round_trip(c);
    lemma_canonical_round_trip(d);
}

/// The compact form of a well-formed identifier expands to a well-formed one.
pub proof fn lemma_canonical_keeps_wf(c: CidView)
    requires
        c.wf(),
    ensures
        c.canonical().cid().wf(),
{
}

} // verus!
