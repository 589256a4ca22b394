use std::mem::size_of;

use forest_filecoin::utils::cid::{
    same_cid, Cid, CidCborExt, Error, Multihash, SmallCid, Version, BLAKE2B256, BLAKE2B256_SIZE,
    DAG_CBOR, DAG_PB, MAX_DIGEST_SIZE, SHA2_256,
};
use multihash_codetable::{Code, MultihashDigest};

const RAW: u64 = 0x55;

const BLAKE2B256_OF_NOTHING: [u8; 32] = [
    0x0e, 0x57, 0x51, 0xc0, 0x26, 0xe5, 0x43, 0xb2, 0xe8, 0xab, 0x2e, 0xb0, 0x60, 0x99, 0xda, 0xa1,
    0xd1, 0xe5, 0xdf, 0x47, 0x77, 0x8f, 0x77, 0x87, 0xfa, 0xab, 0x45, 0xcd, 0xf1, 0x2f, 0xe3, 0xa8,
];

fn from_outside(cid: &cid::Cid) -> Cid {
    let version = match cid.version() {
        cid::Version::V0 => Version::V0,
        cid::Version::V1 => Version::V1,
    };
    let hash = Multihash::wrap(cid.hash().code(), cid.hash().digest()).unwrap();
    Cid::new(version, cid.codec(), hash).unwrap()
}

fn to_outside(cid: &Cid) -> cid::Cid {
    let version = match cid.version() {
        Version::V0 => cid::Version::V0,
        Version::V1 => cid::Version::V1,
    };
    let hash =
        cid::multihash::Multihash::<64>::wrap(cid.hash().code(), cid.hash().digest()).unwrap();
    cid::Cid::new(version, cid.codec(), hash).unwrap()
}

fn v1(codec: u64, code: u64, digest: &[u8]) -> Cid {
    Cid::new_v1(codec, Multihash::wrap(code, digest).unwrap())
}

fn round_trips(cid: Cid) -> bool {
    let small = SmallCid::from(cid.clone());
    small.cid() == cid && Cid::from(&small) == cid && Cid::from(small) == cid
}

// If this stops being true, the documentation of `SmallCid` is out of date.
#[test]
fn cid_size_assumption() {
    assert_eq!(size_of::<cid::Cid>(), 96);
}

#[test]
fn small_cid_takes_forty_bytes() {
    assert_eq!(size_of::<SmallCid>(), 40);
}

// If this stops being true, the constant BLAKE2B256_SIZE is out of date.
#[test]
fn blake_size_assumption() {
    assert_eq!(
        Code::Blake2b256.digest(&[]).size() as usize,
        BLAKE2B256_SIZE
    );
    assert_eq!(
        Cid::from_cbor_blake2b256(&[]).hash().size() as usize,
        BLAKE2B256_SIZE
    );
}

#[test]
fn known_v1_blake2b() {
    let digest = Code::Blake2b256.digest("blake".as_bytes());
    let cid = Cid::new(
        Version::V1,
        DAG_CBOR,
        Multihash::wrap(digest.code(), digest.digest()).unwrap(),
    )
    .unwrap();
    let small: SmallCid = cid.try_into().unwrap();
    assert!(small.is_v1_dag_cbor_blake2b());
}

// If this test fails, the default encoding is no longer v1+dagcbor+blake2b.
#[test]
fn default_is_v1_dagcbor() {
    let encoded = fvm_ipld_encoding::to_vec(&()).unwrap();
    let cid = Cid::from_cbor_blake2b256(&encoded);
    let small: SmallCid = cid.try_into().unwrap();
    assert!(small.is_v1_dag_cbor_blake2b());
}

#[test]
fn fixed_vector_keeps_its_bytes() {
    let outside = cid::Cid::new_v1(
        fvm_ipld_encoding::DAG_CBOR,
        Code::Blake2b256.digest("blake".as_bytes()),
    );
    let small = SmallCid::from(from_outside(&outside));
    assert!(small.is_v1_dag_cbor_blake2b());
    let back = to_outside(&small.cid());
    assert_eq!(back, outside);
    assert_eq!(back.to_bytes(), outside.to_bytes());
}

#[test]
fn constants_are_those_of_the_code_tables() {
    assert_eq!(DAG_CBOR, fvm_ipld_encoding::DAG_CBOR);
    assert_eq!(DAG_CBOR, 0x71);
    assert_eq!(BLAKE2B256, u64::from(Code::Blake2b256));
    assert_eq!(BLAKE2B256, 0xb220);
    assert_eq!(SHA2_256, 0x12);
    assert_eq!(DAG_PB, 0x70);
    assert_eq!(BLAKE2B256_SIZE, 32);
    assert_eq!(MAX_DIGEST_SIZE, 64);
}

#[test]
fn from_cbor_blake2b256_hashes_the_bytes() {
    let cid = Cid::from_cbor_blake2b256(&[]);
    assert_eq!(cid.version(), Version::V1);
    assert_eq!(cid.codec(), 0x71);
    assert_eq!(cid.hash().code(), 0xb220);
    assert_eq!(cid.hash().digest(), &BLAKE2B256_OF_NOTHING[..]);
}

#[test]
fn from_cbor_blake2b256_agrees_with_the_hasher() {
    let input = "blake".as_bytes();
    let cid = Cid::from_cbor_blake2b256(input);
    assert_ne!(cid.hash().digest(), input);
    assert_eq!(cid.hash().size(), 32);
    assert_eq!(cid.hash().digest(), Code::Blake2b256.digest(input).digest());
    assert_eq!(
        to_outside(&cid),
        cid::Cid::new_v1(fvm_ipld_encoding::DAG_CBOR, Code::Blake2b256.digest(input))
    );
    assert_ne!(cid, Cid::from_cbor_blake2b256("blakf".as_bytes()));
}

#[test]
fn from_cbor_blake2b256_of_an_encoded_string() {
    let encoded = fvm_ipld_encoding::to_vec(&String::from("forest")).unwrap();
    let cid = Cid::from_cbor_blake2b256(&encoded);
    let expected = cid::Cid::new_v1(
        fvm_ipld_encoding::DAG_CBOR,
        Code::Blake2b256.digest(&encoded),
    );
    assert_eq!(to_outside(&cid), expected);
    assert!(SmallCid::from(cid).is_v1_dag_cbor_blake2b());
}

#[test]
fn compact_identifier_expands_to_the_same_identifier() {
    let cid = v1(DAG_CBOR, BLAKE2B256, &BLAKE2B256_OF_NOTHING);
    let small = SmallCid::from(cid.clone());
    assert!(small.is_v1_dag_cbor_blake2b());
    let back = small.cid();
    assert_eq!(back, cid);
    assert_eq!(back.version(), Version::V1);
    assert_eq!(back.codec(), DAG_CBOR);
    assert_eq!(back.hash().code(), BLAKE2B256);
    assert_eq!(back.hash().digest(), &BLAKE2B256_OF_NOTHING[..]);
}

#[test]
fn round_trip_of_every_shape() {
    assert!(round_trips(v1(DAG_CBOR, BLAKE2B256, &[7u8; 32])));
    assert!(round_trips(v1(DAG_CBOR, BLAKE2B256, &[7u8; 31])));
    assert!(round_trips(v1(DAG_CBOR, BLAKE2B256, &[7u8; 33])));
    assert!(round_trips(v1(DAG_CBOR, BLAKE2B256, &[7u8; 64])));
    assert!(round_trips(v1(DAG_CBOR, BLAKE2B256, &[])));
    assert!(round_trips(v1(DAG_CBOR, SHA2_256, &[7u8; 32])));
    assert!(round_trips(v1(RAW, BLAKE2B256, &[7u8; 32])));
    assert!(round_trips(v1(DAG_PB, SHA2_256, &[7u8; 32])));
    assert!(round_trips(
        Cid::new_v0(Multihash::wrap(SHA2_256, &[9u8; 32]).unwrap()).unwrap()
    ));
}

#[test]
fn only_the_canonical_shape_is_compact() {
    assert!(SmallCid::from(v1(DAG_CBOR, BLAKE2B256, &[7u8; 32])).is_v1_dag_cbor_blake2b());
    assert!(!SmallCid::from(v1(DAG_CBOR, BLAKE2B256, &[7u8; 31])).is_v1_dag_cbor_blake2b());
    assert!(!SmallCid::from(v1(DAG_CBOR, BLAKE2B256, &[7u8; 33])).is_v1_dag_cbor_blake2b());
    assert!(!SmallCid::from(v1(DAG_CBOR, SHA2_256, &[7u8; 32])).is_v1_dag_cbor_blake2b());
    assert!(!SmallCid::from(v1(RAW, BLAKE2B256, &[7u8; 32])).is_v1_dag_cbor_blake2b());
    let v0 = Cid::new_v0(Multihash::wrap(SHA2_256, &[9u8; 32]).unwrap()).unwrap();
    assert!(!SmallCid::from(v0).is_v1_dag_cbor_blake2b());
}

#[test]
fn compacting_twice_changes_nothing() {
    let cids = [
        v1(DAG_CBOR, BLAKE2B256, &[1u8; 32]),
        v1(RAW, BLAKE2B256, &[1u8; 32]),
        v1(DAG_CBOR, SHA2_256, &[1u8; 20]),
    ];
    for cid in cids {
        let once = SmallCid::from(cid);
        let twice = SmallCid::from(once.cid());
        assert_eq!(once, twice);
        assert_eq!(once.clone(), once);
    }
}

#[test]
fn equality_agrees_between_representations() {
    let cids = [
        v1(DAG_CBOR, BLAKE2B256, &[1u8; 32]),
        v1(DAG_CBOR, BLAKE2B256, &[2u8; 32]),
        v1(RAW, BLAKE2B256, &[1u8; 32]),
        v1(DAG_CBOR, SHA2_256, &[1u8; 32]),
        v1(DAG_CBOR, BLAKE2B256, &[1u8; 31]),
    ];
    for a in &cids {
        for b in &cids {
            assert_eq!(
                SmallCid::from(a.clone()) == SmallCid::from(b.clone()),
                a == b
            );
        }
    }
}

#[test]
fn agrees_with_the_outside_identifier() {
    let outside = cid::Cid::new_v1(RAW, Code::Blake2b256.digest(b"raw block"));
    let cid = from_outside(&outside);
    let small = SmallCid::from(cid);
    assert!(!small.is_v1_dag_cbor_blake2b());
    assert_eq!(to_outside(&small.cid()).to_bytes(), outside.to_bytes());
}

#[test]
fn wrap_takes_up_to_sixty_four_bytes() {
    let hash = Multihash::wrap(0x1234, &[5u8; 64]).unwrap();
    assert_eq!(hash.code(), 0x1234);
    assert_eq!(hash.size(), 64);
    assert_eq!(hash.digest(), &[5u8; 64][..]);
    let empty = Multihash::wrap(0, &[]).unwrap();
    assert_eq!(empty.size(), 0);
    assert_eq!(empty.clone(), empty);
}

#[test]
fn wrap_refuses_a_longer_digest() {
    assert_eq!(
        Multihash::wrap(BLAKE2B256, &[0u8; 65]),
        Err(Error::InvalidSize(65))
    );
    assert!(cid::multihash::Multihash::<64>::wrap(BLAKE2B256, &[0u8; 65]).is_err());
}

#[test]
fn version_zero_admits_only_dag_pb() {
    let hash = Multihash::wrap(SHA2_256, &[9u8; 32]).unwrap();
    assert_eq!(
        Cid::new(Version::V0, DAG_CBOR, hash.clone()),
        Err(Error::InvalidCidV0Codec)
    );
    let cid = Cid::new(Version::V0, DAG_PB, hash).unwrap();
    assert_eq!(cid.version(), Version::V0);
    assert_eq!(cid.codec(), DAG_PB);
}

#[test]
fn version_zero_admits_only_sha2_256() {
    let blake = Multihash::wrap(BLAKE2B256, &[9u8; 32]).unwrap();
    assert_eq!(
        Cid::new(Version::V0, DAG_PB, blake.clone()),
        Err(Error::InvalidCidV0Multihash)
    );
    assert_eq!(Cid::new_v0(blake), Err(Error::InvalidCidV0Multihash));
    let short = Multihash::wrap(SHA2_256, &[9u8; 31]).unwrap();
    assert_eq!(Cid::new_v0(short), Err(Error::InvalidCidV0Multihash));
}

#[test]
fn same_cid_compares_every_part() {
    let base = v1(DAG_CBOR, BLAKE2B256, &[1u8; 32]);
    assert!(same_cid(&base, &base.clone()));
    assert!(!same_cid(&base, &v1(RAW, BLAKE2B256, &[1u8; 32])));
    assert!(!same_cid(&base, &v1(DAG_CBOR, SHA2_256, &[1u8; 32])));
    assert!(!same_cid(&base, &v1(DAG_CBOR, BLAKE2B256, &[1u8; 31])));
    let mut digest = [1u8; 32];
    digest[31] = 2;
    assert!(!same_cid(&base, &v1(DAG_CBOR, BLAKE2B256, &digest)));
    let v0 = Cid::new_v0(Multihash::wrap(SHA2_256, &[1u8; 32]).unwrap()).unwrap();
    assert!(!same_cid(&v0, &v1(DAG_PB, SHA2_256, &[1u8; 32])));
    assert!(same_cid(&v0, &v0.clone()));
}
