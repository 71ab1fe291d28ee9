//! The immutable per-database index header: the k-mer extraction parameters
//! every consumer of a database depends on, with a binary-exact, fixed-order
//! little-endian codec. A mismatched `revcom_version` marks a header as
//! incompatible; decoding rejects it.

use vstd::prelude::*;

verus! {

/// The reverse-complement handling version this build writes and accepts.
pub const CURRENT_REVCOM_VERSION: i32 = 1;

/// The size of one encoded header record in bytes.
pub const INDEX_OPTIONS_SIZE: usize = 64;

/// Turns a raw counter value into an optional one: zero means "unset".
pub fn u64_to_option(value: u64) -> (r: Option<u64>)
    ensures
        r == (if value != 0 {
            Some(value)
        } else {
            None::<u64>
        }),
{
    if value != 0 {
        Some(value)
    } else {
        None
    }
}

/// The minimizer scheme: window lengths, the two masks, and the optional
/// minimum acceptable hash value (0 meaning "none").
#[derive(Clone, Copy, Debug)]
pub struct Meros {
    pub k_mer: usize,
    pub l_mer: usize,
    pub spaced_seed_mask: u64,
    pub toggle_mask: u64,
    pub min_clear_hash_value: Option<u64>,
}

impl Meros {
    /// Packs a scheme; an absent mask stands for the all-clear one.
    pub fn new(
        k_mer: usize,
        l_mer: usize,
        spaced_seed_mask: Option<u64>,
        toggle_mask: Option<u64>,
        min_clear_hash_value: Option<u64>,
    ) -> (r: Meros)
        ensures
            r.k_mer == k_mer,
            r.l_mer == l_mer,
            r.spaced_seed_mask == (match spaced_seed_mask {
                Some(v) => v,
                None => 0u64,
            }),
            r.toggle_mask == (match toggle_mask {
                Some(v) => v,
                None => 0u64,
            }),
            r.min_clear_hash_value == min_clear_hash_value,
    {
        Meros {
            k_mer,
            l_mer,
            spaced_seed_mask: match spaced_seed_mask {
                Some(v) => v,
                None => 0,
            },
            toggle_mask: match toggle_mask {
                Some(v) => v,
                None => 0,
            },
            min_clear_hash_value,
        }
    }
}

/// The fixed-layout immutable header record persisted once per database
/// build.
#[derive(Clone, Copy, PartialEq, Eq, Structural, Debug)]
pub struct IndexOptions {
    pub k: usize,
    pub l: usize,
    pub spaced_seed_mask: u64,
    pub toggle_mask: u64,
    pub dna_db: bool,
    pub minimum_acceptable_hash_value: u64,
    pub revcom_version: i32,
    pub db_version: i32,
    pub db_type: i32,
}

/// The eight little-endian bytes of a 64-bit value.
pub open spec fn u64_le_bytes(v: u64) -> Seq<u8> {
    seq![
        (v & 0xff) as u8,
        ((v >> 8) & 0xff) as u8,
        ((v >> 16) & 0xff) as u8,
        ((v >> 24) & 0xff) as u8,
        ((v >> 32) & 0xff) as u8,
        ((v >> 40) & 0xff) as u8,
        ((v >> 48) & 0xff) as u8,
        ((v >> 56) & 0xff) as u8,
    ]
}

/// The 64-bit value eight little-endian bytes hold.
pub open spec fn u64_from_le(b: Seq<u8>) -> u64 {
    ((b[0] as u64) | ((b[1] as u64) << 8) | ((b[2] as u64) << 16) | ((b[3] as u64) << 24) | ((
    b[4] as u64) << 32) | ((b[5] as u64) << 40) | ((b[6] as u64) << 48) | ((b[7] as u64) << 56))
}

/// The four little-endian bytes of a 32-bit value.
pub open spec fn u32_le_bytes(v: u32) -> Seq<u8> {
    seq![
        (v & 0xff) as u8,
        ((v >> 8) & 0xff) as u8,
        ((v >> 16) & 0xff) as u8,
        ((v >> 24) & 0xff) as u8,
    ]
}

/// The 32-bit value four little-endian bytes hold.
pub open spec fn u32_from_le(b: Seq<u8>) -> u32 {
    ((b[0] as u32) | ((b[1] as u32) << 8) | ((b[2] as u32) << 16) | ((b[3] as u32) << 24))
}

/// The two's-complement bit pattern of a signed 32-bit value.
pub open spec fn i32_bits(v: i32) -> u32 {
    if v >= 0 {
        v as u32
    } else {
        (v + 0x1_0000_0000) as u32
    }
}

/// The signed 32-bit value of a two's-complement bit pattern.
pub open spec fn i32_of_bits(u: u32) -> i32 {
    if u < 0x8000_0000 {
        u as i32
    } else {
        (u - 0x1_0000_0000) as i32
    }
}

/// Eight little-endian bytes decode back to the value they encode.
pub proof fn lemma_u64_le_roundtrip(v: u64)
    ensures
        u64_from_le(u64_le_bytes(v)) == v,
{
    assert((((v & 0xff) as u8) as u64) | ((((v >> 8) & 0xff) as u8) as u64) << 8 | ((((v >> 16)
        & 0xff) as u8) as u64) << 16 | ((((v >> 24) & 0xff) as u8) as u64) << 24 | ((((v >> 32)
        & 0xff) as u8) as u64) << 32 | ((((v >> 40) & 0xff) as u8) as u64) << 40 | ((((v >> 48)
        & 0xff) as u8) as u64) << 48 | ((((v >> 56) & 0xff) as u8) as u64) << 56 == v)
        by (bit_vector);
}

/// Four little-endian bytes decode back to the value they encode.
pub proof fn lemma_u32_le_roundtrip(v: u32)
    ensures
        u32_from_le(u32_le_bytes(v)) == v,
{
    assert((((v & 0xff) as u8) as u32) | ((((v >> 8) & 0xff) as u8) as u32) << 8 | ((((v >> 16)
        & 0xff) as u8) as u32) << 16 | ((((v >> 24) & 0xff) as u8) as u32) << 24 == v)
        by (bit_vector);
}

/// The two's-complement pattern decodes back to the signed value.
pub proof fn lemma_i32_bits_roundtrip(v: i32)
    ensures
        i32_of_bits(i32_bits(v)) == v,
{
}

/// The encoded header: the fields in fixed order with their documented
/// widths, the flag byte and the alignment paddings all explicit.
pub open spec fn spec_encode(o: IndexOptions) -> Seq<u8> {
    u64_le_bytes(o.k as u64) + u64_le_bytes(o.l as u64) + u64_le_bytes(o.spaced_seed_mask)
        + u64_le_bytes(o.toggle_mask) + seq![
        (if o.dna_db {
            1u8
        } else {
            0u8
        }),
        0u8,
        0u8,
        0u8,
        0u8,
        0u8,
        0u8,
        0u8,
    ] + u64_le_bytes(o.minimum_acceptable_hash_value) + u32_le_bytes(i32_bits(o.revcom_version))
        + u32_le_bytes(i32_bits(o.db_version)) + u32_le_bytes(i32_bits(o.db_type)) + seq![
        0u8,
        0u8,
        0u8,
        0u8,
    ]
}

/// Why a byte record fails to decode as a header.
#[derive(Clone, Copy, PartialEq, Eq, Structural, Debug)]
pub enum IndexOptionsError {
    /// Fewer bytes than one record.
    TooShort,
    /// The record's `revcom_version` is not the one this build accepts.
    UnsupportedVersion,
    /// A word-sized length does not fit this platform's word.
    FieldOverflow,
}

/// What decoding a byte record yields: the record is rejected when it is
/// shorter than one header, carries a foreign `revcom_version`, or holds a
/// length beyond this platform's word; otherwise every field is read back at
/// its fixed offset.
pub open spec fn spec_decode(b: Seq<u8>) -> Result<IndexOptions, IndexOptionsError> {
    if b.len() < 64 {
        Err(IndexOptionsError::TooShort)
    } else if i32_of_bits(u32_from_le(b.subrange(48, 52))) != CURRENT_REVCOM_VERSION {
        Err(IndexOptionsError::UnsupportedVersion)
    } else if u64_from_le(b.subrange(0, 8)) > usize::MAX || u64_from_le(b.subrange(8, 16))
        > usize::MAX {
        Err(IndexOptionsError::FieldOverflow)
    } else {
        Ok(
            IndexOptions {
                k: u64_from_le(b.subrange(0, 8)) as usize,
                l: u64_from_le(b.subrange(8, 16)) as usize,
                spaced_seed_mask: u64_from_le(b.subrange(16, 24)),
                toggle_mask: u64_from_le(b.subrange(24, 32)),
                dna_db: b[32] != 0,
                minimum_acceptable_hash_value: u64_from_le(b.subrange(40, 48)),
                revcom_version: CURRENT_REVCOM_VERSION,
                db_version: i32_of_bits(u32_from_le(b.subrange(52, 56))),
                db_type: i32_of_bits(u32_from_le(b.subrange(56, 60))),
            },
        )
    }
}

/// Append the eight little-endian bytes of `v`.
fn push_u64_le(out: &mut Vec<u8>, v: u64)
    ensures
        final(out)@ =~= old(out)@ + u64_le_bytes(v),
{
    proof {
        assert((v & 0xff) < 256 && ((v >> 8) & 0xff) < 256 && ((v >> 16) & 0xff) < 256 && ((v
            >> 24) & 0xff) < 256 && ((v >> 32) & 0xff) < 256 && ((v >> 40) & 0xff) < 256 && ((v
            >> 48) & 0xff) < 256 && ((v >> 56) & 0xff) < 256) by (bit_vector);
    }
    out.push((v & 0xff) as u8);
    out.push(((v >> 8) & 0xff) as u8);
    out.push(((v >> 16) & 0xff) as u8);
    out.push(((v >> 24) & 0xff) as u8);
    out.push(((v >> 32) & 0xff) as u8);
    out.push(((v >> 40) & 0xff) as u8);
    out.push(((v >> 48) & 0xff) as u8);
    out.push(((v >> 56) & 0xff) as u8);
}

/// Append the four little-endian bytes of `v`.
fn push_u32_le(out: &mut Vec<u8>, v: u32)
    ensures
        final(out)@ =~= old(out)@ + u32_le_bytes(v),
{
    proof {
        assert((v & 0xff) < 256 && ((v >> 8) & 0xff) < 256 && ((v >> 16) & 0xff) < 256 && ((v
            >> 24) & 0xff) < 256) by (bit_vector);
    }
    out.push((v & 0xff) as u8);
    out.push(((v >> 8) & 0xff) as u8);
    out.push(((v >> 16) & 0xff) as u8);
    out.push(((v >> 24) & 0xff) as u8);
}

/// Read the 64-bit value at offset `off`.
fn read_u64_le(bytes: &Vec<u8>, off: usize) -> (v: u64)
    requires
        off + 8 <= bytes@.len(),
    ensures
        v == u64_from_le(bytes@.subrange(off as int, off + 8)),
{
    let ghost sub = bytes@.subrange(off as int, off + 8);
    let n = bytes.len();
    let v = (bytes[off] as u64) | ((bytes[off + 1] as u64) << 8) | ((bytes[off + 2] as u64)
        << 16) | ((bytes[off + 3] as u64) << 24) | ((bytes[off + 4] as u64) << 32) | ((bytes[off
        + 5] as u64) << 40) | ((bytes[off + 6] as u64) << 48) | ((bytes[off + 7] as u64) << 56);
    proof {
        assert(sub[0] == bytes@[off as int] && sub[1] == bytes@[off + 1] && sub[2] == bytes@[off
            + 2] && sub[3] == bytes@[off + 3] && sub[4] == bytes@[off + 4] && sub[5] == bytes@[off
            + 5] && sub[6] == bytes@[off + 6] && sub[7] == bytes@[off + 7]);
    }
    v
}

/// Read the 32-bit value at offset `off`.
fn read_u32_le(bytes: &Vec<u8>, off: usize) -> (v: u32)
    requires
        off + 4 <= bytes@.len(),
    ensures
        v == u32_from_le(bytes@.subrange(off as int, off + 4)),
{
    let ghost sub = bytes@.subrange(off as int, off + 4);
    let n = bytes.len();
    let v = (bytes[off] as u32) | ((bytes[off + 1] as u32) << 8) | ((bytes[off + 2] as u32)
        << 16) | ((bytes[off + 3] as u32) << 24);
    proof {
        assert(sub[0] == bytes@[off as int] && sub[1] == bytes@[off + 1] && sub[2] == bytes@[off
            + 2] && sub[3] == bytes@[off + 3]);
    }
    v
}

/// The two's-complement bit pattern of `v`.
fn i32_to_bits(v: i32) -> (u: u32)
    ensures
        u == i32_bits(v),
{
    if v >= 0 {
        v as u32
    } else {
        ((v as i64) + 0x1_0000_0000i64) as u32
    }
}

/// The signed value of a two's-complement bit pattern.
fn bits_to_i32(u: u32) -> (v: i32)
    ensures
        v == i32_of_bits(u),
{
    if u < 0x8000_0000 {
        u as i32
    } else {
        ((u as i64) - 0x1_0000_0000i64) as i32
    }
}

impl IndexOptions {
    /// Packs the extraction parameters with this build's version tags.
    pub fn new(
        k: usize,
        l: usize,
        spaced_seed_mask: u64,
        toggle_mask: u64,
        dna_db: bool,
        minimum_acceptable_hash_value: u64,
    ) -> (r: IndexOptions)
        ensures
            r == (IndexOptions {
                k,
                l,
                spaced_seed_mask,
                toggle_mask,
                dna_db,
                minimum_acceptable_hash_value,
                revcom_version: CURRENT_REVCOM_VERSION,
                db_version: 0,
                db_type: 0,
            }),
    {
        IndexOptions {
            k,
            l,
            spaced_seed_mask,
            toggle_mask,
            dna_db,
            minimum_acceptable_hash_value,
            revcom_version: CURRENT_REVCOM_VERSION,
            db_version: 0,
            db_type: 0,
        }
    }

    /// A header carrying a minimizer scheme: DNA database, masks and lengths
    /// taken verbatim, an absent minimum hash value stored as 0.
    pub fn from_meros(meros: Meros) -> (r: IndexOptions)
        ensures
            r == (IndexOptions {
                k: meros.k_mer,
                l: meros.l_mer,
                spaced_seed_mask: meros.spaced_seed_mask,
                toggle_mask: meros.toggle_mask,
                dna_db: true,
                minimum_acceptable_hash_value: (match meros.min_clear_hash_value {
                    Some(v) => v,
                    None => 0u64,
                }),
                revcom_version: CURRENT_REVCOM_VERSION,
                db_version: 0,
                db_type: 0,
            }),
    {
        let min = match meros.min_clear_hash_value {
            Some(v) => v,
            None => 0,
        };
        IndexOptions::new(
            meros.k_mer,
            meros.l_mer,
            meros.spaced_seed_mask,
            meros.toggle_mask,
            true,
            min,
        )
    }

    /// The minimizer scheme this header records, zero masks reading as
    /// absent.
    pub fn as_meros(&self) -> (r: Meros)
        ensures
            r.k_mer == self.k,
            r.l_mer == self.l,
            r.spaced_seed_mask == self.spaced_seed_mask,
            r.toggle_mask == self.toggle_mask,
            r.min_clear_hash_value == (if self.minimum_acceptable_hash_value != 0 {
                Some(self.minimum_acceptable_hash_value)
            } else {
                None::<u64>
            }),
    {
        Meros::new(
            self.k,
            self.l,
            u64_to_option(self.spaced_seed_mask),
            u64_to_option(self.toggle_mask),
            u64_to_option(self.minimum_acceptable_hash_value),
        )
    }

    /// Serialize the record verbatim: every field at its fixed offset.
    pub fn to_bytes(&self) -> (r: Vec<u8>)
        ensures
            r@ =~= spec_encode(*self),
            r@.len() == INDEX_OPTIONS_SIZE,
    {
        let mut out: Vec<u8> = Vec::new();
        push_u64_le(&mut out, self.k as u64);
        push_u64_le(&mut out, self.l as u64);
        push_u64_le(&mut out, self.spaced_seed_mask);
        push_u64_le(&mut out, self.toggle_mask);
        out.push(if self.dna_db {
            1
        } else {
            0
        });
        let mut pad: usize = 0;
        while pad < 7
            invariant
                pad <= 7,
                out@ =~= u64_le_bytes(self.k as u64) + u64_le_bytes(self.l as u64) + u64_le_bytes(
                    self.spaced_seed_mask,
                ) + u64_le_bytes(self.toggle_mask) + seq![
                    (if self.dna_db {
                        1u8
                    } else {
                        0u8
                    }),
                ] + Seq::new(pad as nat, |i: int| 0u8),
            decreases 7 - pad,
        {
            out.push(0);
            proof {
                assert(Seq::new(pad as nat, |i: int| 0u8).push(0u8) =~= Seq::new(
                    (pad + 1) as nat,
                    |i: int| 0u8,
                ));
            }
            pad = pad + 1;
        }
        push_u64_le(&mut out, self.minimum_acceptable_hash_value);
        let rev = i32_to_bits(self.revcom_version);
        push_u32_le(&mut out, rev);
        let dbv = i32_to_bits(self.db_version);
        push_u32_le(&mut out, dbv);
        let dbt = i32_to_bits(self.db_type);
        push_u32_le(&mut out, dbt);
        out.push(0);
        out.push(0);
        out.push(0);
        out.push(0);
        proof {
            assert(Seq::new(7nat, |i: int| 0u8) =~= seq![0u8, 0u8, 0u8, 0u8, 0u8, 0u8, 0u8]);
            assert(out@ =~= spec_encode(*self));
        }
        out
    }

    /// Deserialize one record: reject a short read, a foreign
    /// `revcom_version`, or a length beyond this platform's word.
    pub fn from_bytes(bytes: &Vec<u8>) -> (r: Result<IndexOptions, IndexOptionsError>)
        ensures
            r == spec_decode(bytes@),
    {
        if bytes.len() < 64 {
            return Err(IndexOptionsError::TooShort);
        }
        let rev = bits_to_i32(read_u32_le(bytes, 48));
        if rev != CURRENT_REVCOM_VERSION {
            return Err(IndexOptionsError::UnsupportedVersion);
        }
        let k64 = read_u64_le(bytes, 0);
        let l64 = read_u64_le(bytes, 8);
        if k64 > (usize::MAX as u64) || l64 > (usize::MAX as u64) {
            return Err(IndexOptionsError::FieldOverflow);
        }
        let dna = bytes[32] != 0;
        let opts = IndexOptions {
            k: k64 as usize,
            l: l64 as usize,
            spaced_seed_mask: read_u64_le(bytes, 16),
            toggle_mask: read_u64_le(bytes, 24),
            dna_db: dna,
            minimum_acceptable_hash_value: read_u64_le(bytes, 40),
            revcom_version: rev,
            db_version: bits_to_i32(read_u32_le(bytes, 52)),
            db_type: bits_to_i32(read_u32_le(bytes, 56)),
        };
        Ok(opts)
    }
}

/// Writing a header and reading it back yields the record unchanged,
/// field for field, as long as it carries this build's `revcom_version`.
#[verifier::rlimit(100)]
pub proof fn lemma_options_roundtrip(o: IndexOptions)
    requires
        o.revcom_version == CURRENT_REVCOM_VERSION,
    ensures
        spec_decode(spec_encode(o)) == Ok::<IndexOptions, IndexOptionsError>(o),
{
    let b = spec_encode(o);
    assert(b.subrange(0, 8) =~= u64_le_bytes(o.k as u64));
    assert(b.subrange(8, 16) =~= u64_le_bytes(o.l as u64));
    assert(b.subrange(16, 24) =~= u64_le_bytes(o.spaced_seed_mask));
    assert(b.subrange(24, 32) =~= u64_le_bytes(o.toggle_mask));
    assert(b.subrange(40, 48) =~= u64_le_bytes(o.minimum_acceptable_hash_value));
    assert(b.subrange(48, 52) =~= u32_le_bytes(i32_bits(o.revcom_version)));
    assert(b.subrange(52, 56) =~= u32_le_bytes(i32_bits(o.db_version)));
    assert(b.subrange(56, 60) =~= u32_le_bytes(i32_bits(o.db_type)));
    lemma_u64_le_roundtrip(o.k as u64);
    lemma_u64_le_roundtrip(o.l as u64);
    lemma_u64_le_roundtrip(o.spaced_seed_mask);
    lemma_u64_le_roundtrip(o.toggle_mask);
    lemma_u64_le_roundtrip(o.minimum_acceptable_hash_value);
    lemma_u32_le_roundtrip(i32_bits(o.revcom_version));
    lemma_u32_le_roundtrip(i32_bits(o.db_version));
    lemma_u32_le_roundtrip(i32_bits(o.db_type));
    lemma_i32_bits_roundtrip(o.revcom_version);
    lemma_i32_bits_roundtrip(o.db_version);
    lemma_i32_bits_roundtrip(o.db_type);
    assert(b[32] == (if o.dna_db {
        1u8
    } else {
        0u8
    }));
}

/// A record written with a foreign `revcom_version` is rejected on read.
#[verifier::rlimit(100)]
pub proof fn lemma_options_version_guard(o: IndexOptions)
    requires
        o.revcom_version != CURRENT_REVCOM_VERSION,
    ensures
        spec_decode(spec_encode(o)) == Err::<IndexOptions, _>(
            IndexOptionsError::UnsupportedVersion,
        ),
{
    let b = spec_encode(o);
    assert(b.subrange(48, 52) =~= u32_le_bytes(i32_bits(o.revcom_version)));
    lemma_u32_le_roundtrip(i32_bits(o.revcom_version));
    lemma_i32_bits_roundtrip(o.revcom_version);
}

} // verus!
