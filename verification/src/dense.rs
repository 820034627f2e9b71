//! Dense-index plumbing that needs no arithmetic on floats: embedding
//! roles, the deterministic baseline's identity, word tokens, and the
//! little-endian reader of the binary index format.

use vstd::prelude::*;
use crate::config::DenseBackendConfig;
use crate::context::{stamped_by, Capability, SnapshotStamp, ViewState, ViewStatus};
use crate::digest::{blake3_hex, blake3_hex_of, lower_hex_digit};
use vstd::utf8::{decode_utf8, encode_utf8, valid_utf8};
use crate::text::utf8_text;
use crate::text::{
    chars_of, copy_string, decimal, drop_empty, lower, lower_all, owned, push_decimal, push_str, split_nonempty,
    split_on, string_of, Separator,
};

verus! {

/// Whether an embedding input is an indexed document or a user query.
#[derive(Debug, Clone, Copy, PartialEq, Eq, Structural)]
pub enum EmbedRole {
    /// Embedding a document for the index.
    Document,
    /// Embedding a user query.
    Query,
}

/// Hash-of-token baseline embedder: deterministic, offline, never
/// production.
#[derive(Debug)]
pub struct DeterministicEmbedder {
    dimensions: usize,
    profile: String,
}

/// Why a deterministic embedder could not be built.
#[derive(Debug, Clone, PartialEq, Eq)]
pub enum EmbedderError {
    /// Dimensions outside `32..=16384`.
    Dimensions(usize),
}

impl DeterministicEmbedder {
    /// Widths stay within `32..=16384`.
    #[verifier::type_invariant]
    spec fn width_in_range(&self) -> bool {
        32 <= self.dimensions <= 16384
    }

    /// The embedder's vector width.
    pub closed spec fn spec_dimensions(&self) -> usize {
        self.dimensions
    }

    /// The embedder's profile string.
    pub closed spec fn spec_profile(&self) -> Seq<char> {
        self.profile@
    }

    /// A baseline embedder with `dimensions` in `32..=16384`; any other
    /// width is refused.
    pub fn new(dimensions: usize) -> (r: Result<Self, EmbedderError>)
        ensures
            match r {
                Ok(e) => 32 <= dimensions <= 16384 && e.spec_dimensions() == dimensions
                    && e.spec_profile() == "deterministic-baseline-"@ + decimal(dimensions as nat),
                Err(EmbedderError::Dimensions(d)) => d == dimensions && !(32 <= dimensions
                    <= 16384),
            },
    {
        if !(32 <= dimensions && dimensions <= 16384) {
            return Err(EmbedderError::Dimensions(dimensions));
        }
        let mut v: Vec<char> = Vec::new();
        push_str(&mut v, "deterministic-baseline-");
        push_decimal(&mut v, dimensions as u64);
        Ok(DeterministicEmbedder { dimensions, profile: string_of(&v) })
    }

    /// Profile string persisted with the index.
    pub fn profile(&self) -> (r: &str)
        ensures
            r@ == self.spec_profile(),
    {
        self.profile.as_str()
    }

    /// Vector width.
    pub fn dimensions(&self) -> (r: usize)
        ensures
            r == self.spec_dimensions(),
    {
        self.dimensions
    }

    /// The baseline is never benchmark-meaningful.
    pub open spec fn spec_production_ready(&self) -> bool {
        false
    }

    /// The baseline is never benchmark-meaningful.
    pub fn production_ready(&self) -> (r: bool)
        ensures
            r == self.spec_production_ready(),
    {
        false
    }

    /// Where each word token of `input` lands in the embedding vector: its
    /// slot, and whether it counts negatively there.
    pub fn slots(&self, input: &str) -> (r: Vec<(usize, bool)>)
        ensures
            r@ == word_tokens_of(input@).map_values(
                |t: Seq<char>| token_slot_of(t, self.spec_dimensions()),
            ),
    {
        proof {
            use_type_invariant(self);
        }
        let words = tokens(input);
        let ghost ws = word_tokens_of(input@);
        let mut r: Vec<(usize, bool)> = Vec::new();
        for i in 0..words.len()
            invariant
                32 <= self.dimensions <= 16384,
                words@.map_values(|s: String| s@) == ws,
                r@ == ws.map_values(|t: Seq<char>| token_slot_of(t, self.dimensions)).take(
                    i as int,
                ),
        {
            assert(words@.map_values(|s: String| s@)[i as int] == words@[i as int]@);
            let slot = token_slot(words[i].as_str(), self.dimensions);
            r.push(slot);
            assert(r@ =~= ws.map_values(|t: Seq<char>| token_slot_of(t, self.dimensions)).take(
                i + 1,
            ));
        }
        assert(ws.map_values(|t: Seq<char>| token_slot_of(t, self.dimensions)).take(
            words@.len() as int,
        ) =~= ws.map_values(|t: Seq<char>| token_slot_of(t, self.dimensions)));
        r
    }
}

/// Value of a lowercase hexadecimal digit.
pub open spec fn hex_value(c: char) -> int {
    if '0' <= c <= '9' {
        (c as int) - ('0' as int)
    } else {
        (c as int) - ('a' as int) + 10
    }
}

/// The first `n` bytes a lowercase hexadecimal spelling encodes.
pub open spec fn hex_bytes(hex: Seq<char>, n: nat) -> Seq<u8> {
    Seq::new(n, |i: int| (hex_value(hex[2 * i]) * 16 + hex_value(hex[2 * i + 1])) as u8)
}

/// The slot and sign a token lands on: the first eight bytes of its
/// BLAKE3 digest read little-endian, as a `usize`, modulo the width; the
/// sign is negative when the ninth byte is odd.
pub open spec fn token_slot_of(token: Seq<char>, dimensions: usize) -> (usize, bool) {
    let bytes = hex_bytes(blake3_hex_of(encode_utf8(token)), 9);
    ((((le_value(bytes.take(8)) as u64) as usize) % dimensions) as usize, bytes[8] % 2 == 1)
}

fn hex_digit_value(c: char) -> (r: u8)
    requires
        lower_hex_digit(c),
    ensures
        r == hex_value(c),
{
    if '0' <= c && c <= '9' {
        ((c as u32) - ('0' as u32)) as u8
    } else {
        ((c as u32) - ('a' as u32) + 10) as u8
    }
}

/// The slot and sign of one token in a vector of `dimensions` slots.
pub fn token_slot(token: &str, dimensions: usize) -> (r: (usize, bool))
    requires
        dimensions > 0,
    ensures
        r == token_slot_of(token@, dimensions),
{
    let raw = token.as_bytes();
    let hex = chars_of(blake3_hex(raw).as_str());
    let ghost h = blake3_hex_of(encode_utf8(token@));
    assert(raw@ == encode_utf8(token@));
    let mut bytes: Vec<u8> = Vec::new();
    for i in 0..9
        invariant
            hex@ == h,
            hex@.len() == 64,
            forall|k: int| 0 <= k < 64 ==> lower_hex_digit(#[trigger] hex@[k]),
            bytes@ == hex_bytes(h, i as nat),
    {
        let hi = hex_digit_value(hex[2 * i]);
        let lo = hex_digit_value(hex[2 * i + 1]);
        bytes.push(hi * 16 + lo);
        assert(bytes@ =~= hex_bytes(h, (i + 1) as nat));
    }
    let first = slice_bytes(&bytes, 0, 8);
    let value = le_u64(&first);
    assert(first@ =~= hex_bytes(h, 9).take(8));
    (((value as usize) % dimensions), bytes[8] % 2 == 1)
}

fn slice_bytes(b: &Vec<u8>, from: usize, to: usize) -> (r: Vec<u8>)
    requires
        from <= to <= b@.len(),
    ensures
        r@ == b@.subrange(from as int, to as int),
{
    let mut r: Vec<u8> = Vec::new();
    for i in from..to
        invariant
            to <= b@.len(),
            r@ == b@.subrange(from as int, i as int),
    {
        r.push(b[i]);
        assert(r@ =~= b@.subrange(from as int, i + 1));
    }
    r
}


/// Word tokens of `value`: runs of alphanumerics and `_`, ASCII
/// lower-cased.
pub open spec fn word_tokens_of(value: Seq<char>) -> Seq<Seq<char>> {
    drop_empty(split_on(value, Separator::NonWord)).map_values(|t: Seq<char>| lower(t))
}

/// The lower-cased word tokens of `value`.
pub fn tokens(value: &str) -> (r: Vec<String>)
    ensures
        r@.map_values(|s: String| s@) == word_tokens_of(value@),
{
    let pieces = split_nonempty(&chars_of(value), Separator::NonWord);
    let ghost ps = drop_empty(split_on(value@, Separator::NonWord));
    let mut r: Vec<String> = Vec::new();
    for i in 0..pieces.len()
        invariant
            pieces@.map_values(|v: Vec<char>| v@) == ps,
            r@.map_values(|s: String| s@) == ps.map_values(|t: Seq<char>| lower(t)).take(i as int),
    {
        let t = string_of(&lower_all(&pieces[i]));
        let ghost before = r@;
        r.push(t);
        assert(pieces@.map_values(|v: Vec<char>| v@)[i as int] == pieces@[i as int]@);
        assert(ps.map_values(|t: Seq<char>| lower(t)).take(i + 1) =~= ps.map_values(
            |t: Seq<char>| lower(t),
        ).take(i as int).push(lower(ps[i as int])));
        assert(r@.map_values(|s: String| s@) =~= before.map_values(|s: String| s@).push(t@));
        assert(r@.map_values(|s: String| s@) =~= ps.map_values(|t: Seq<char>| lower(t)).take(
            i + 1,
        ));
    }
    assert(ps.map_values(|t: Seq<char>| lower(t)).take(pieces.len() as int) =~= ps.map_values(
        |t: Seq<char>| lower(t),
    ));
    r
}

/// Why reading the binary index failed.
#[derive(Debug, Clone, Copy, PartialEq, Eq)]
pub enum SliceError {
    /// Fewer bytes remain than were asked for.
    Truncated,
}

/// A cursor over the bytes of a binary index.
#[derive(Debug, Clone)]
pub struct SliceReader {
    bytes: Vec<u8>,
    position: usize,
}

/// Little-endian value of `b`.
pub open spec fn le_value(b: Seq<u8>) -> nat
    decreases b.len(),
{
    if b.len() == 0 {
        0
    } else {
        b[0] as nat + 256 * le_value(b.drop_first())
    }
}

impl SliceReader {
    /// The bytes not yet read.
    pub closed spec fn remaining(&self) -> Seq<u8> {
        self.bytes@.skip(self.position as int)
    }

    /// The reader is well formed.
    pub closed spec fn wf(&self) -> bool {
        self.position <= self.bytes@.len()
    }

    /// A reader positioned at the start of `bytes`.
    pub fn new(bytes: Vec<u8>) -> (r: Self)
        ensures
            r.wf(),
            r.remaining() == bytes@,
    {
        let r = SliceReader { bytes, position: 0 };
        assert(r.bytes@.skip(0) =~= r.bytes@);
        r
    }

    /// Whether every byte has been read.
    pub fn is_empty(&self) -> (r: bool)
        requires
            self.wf(),
        ensures
            r == (self.remaining().len() == 0),
    {
        self.position == self.bytes.len()
    }

    /// The next `length` bytes, or `Truncated` (reading nothing) when fewer
    /// remain.
    pub fn take(&mut self, length: usize) -> (r: Result<Vec<u8>, SliceError>)
        requires
            old(self).wf(),
        ensures
            final(self).wf(),
            match r {
                Ok(v) => length <= old(self).remaining().len() && v@ == old(self).remaining().take(
                    length as int,
                ) && final(self).remaining() == old(self).remaining().skip(length as int),
                Err(_) => length > old(self).remaining().len() && final(self).remaining() == old(
                    self,
                ).remaining(),
            },
    {
        if length > self.bytes.len() - self.position {
            return Err(SliceError::Truncated);
        }
        let mut v: Vec<u8> = Vec::new();
        let start = self.position;
        let end = start + length;
        for j in start..end
            invariant
                start == self.position,
                end == start + length,
                end <= self.bytes@.len(),
                v@ == self.bytes@.subrange(start as int, j as int),
        {
            v.push(self.bytes[j]);
            assert(v@ =~= self.bytes@.subrange(start as int, j + 1));
        }
        self.position = end;
        assert(v@ =~= old(self).remaining().take(length as int));
        assert(self.remaining() =~= old(self).remaining().skip(length as int));
        Ok(v)
    }

    /// The next four bytes as a little-endian `u32`.
    pub fn u32(&mut self) -> (r: Result<u32, SliceError>)
        requires
            old(self).wf(),
        ensures
            final(self).wf(),
            match r {
                Ok(x) => 4 <= old(self).remaining().len() && x == le_value(
                    old(self).remaining().take(4),
                ) && final(self).remaining() == old(self).remaining().skip(4),
                Err(_) => old(self).remaining().len() < 4 && final(self).remaining() == old(
                    self,
                ).remaining(),
            },
    {
        let b = match self.take(4) {
            Ok(b) => b,
            Err(e) => return Err(e),
        };
        let x = (b[0] as u32) | ((b[1] as u32) << 8) | ((b[2] as u32) << 16) | ((b[3] as u32) << 24);
        proof {
            let (b0, b1, b2, b3) = (b@[0], b@[1], b@[2], b@[3]);
            assert(x == b0 as u32 + 256 * (b1 as u32) + 65536 * (b2 as u32) + 16777216 * (b3 as u32))
                by (bit_vector)
                requires
                    x == (b0 as u32) | ((b1 as u32) << 8) | ((b2 as u32) << 16) | ((b3 as u32) << 24),
            ;
            reveal_with_fuel(le_value, 5);
            assert(b@.drop_first().drop_first().drop_first().drop_first() =~= Seq::<u8>::empty());
        }
        Ok(x)
    }

    /// The next eight bytes as a little-endian `u64`.
    pub fn u64(&mut self) -> (r: Result<u64, SliceError>)
        requires
            old(self).wf(),
        ensures
            final(self).wf(),
            match r {
                Ok(x) => 8 <= old(self).remaining().len() && x == le_value(
                    old(self).remaining().take(8),
                ) && final(self).remaining() == old(self).remaining().skip(8),
                Err(_) => old(self).remaining().len() < 8 && final(self).remaining() == old(
                    self,
                ).remaining(),
            },
    {
        let b = match self.take(8) {
            Ok(b) => b,
            Err(e) => return Err(e),
        };
        let x = le_u64(&b);
        assert(b@ =~= old(self).remaining().take(8));
        Ok(x)
    }
}


/// Eight bytes read as a little-endian `u64`.
fn le_u64(b: &Vec<u8>) -> (r: u64)
    requires
        b@.len() == 8,
    ensures
        r == le_value(b@),
{
        let x = (b[0] as u64) | ((b[1] as u64) << 8) | ((b[2] as u64) << 16) | ((b[3] as u64) << 24)
            | ((b[4] as u64) << 32) | ((b[5] as u64) << 40) | ((b[6] as u64) << 48) | ((b[7] as u64)
            << 56);
        proof {
            let (b0, b1, b2, b3, b4, b5, b6, b7) = (
                b@[0],
                b@[1],
                b@[2],
                b@[3],
                b@[4],
                b@[5],
                b@[6],
                b@[7],
            );
            assert(x == b0 as u64 + 256 * (b1 as u64) + 65536 * (b2 as u64) + 16777216 * (b3 as u64)
                + 4294967296 * (b4 as u64) + 1099511627776 * (b5 as u64) + 281474976710656 * (
            b6 as u64) + 72057594037927936 * (b7 as u64)) by (bit_vector)
                requires
                    x == (b0 as u64) | ((b1 as u64) << 8) | ((b2 as u64) << 16) | ((b3 as u64)
                        << 24) | ((b4 as u64) << 32) | ((b5 as u64) << 40) | ((b6 as u64) << 48)
                        | ((b7 as u64) << 56),
            ;
            reveal_with_fuel(le_value, 9);
            assert(b@.skip(8) =~= Seq::<u8>::empty());
            assert(b@.drop_first().drop_first().drop_first().drop_first().drop_first().drop_first().drop_first().drop_first()
                =~= Seq::<u8>::empty());
        }
    x
}

/// A backend's configuration and the backend built from it agree on
/// production readiness: for the deterministic baseline, the backend this
/// library builds, the configuration is not production and neither is any
/// embedder built for it.
pub proof fn law_baseline_production_agrees(config: DenseBackendConfig, embedder: DeterministicEmbedder)
    requires
        config is DeterministicBaseline,
    ensures
        (config is Local) == embedder.spec_production_ready(),
{
}

// ---- the binary vector index -------------------------------------------------------------

/// The magic bytes that open a vector index (`CCEVEC1\0`).
pub open spec fn vector_magic() -> Seq<u8> {
    seq![0x43u8, 0x43u8, 0x45u8, 0x56u8, 0x45u8, 0x43u8, 0x31u8, 0x00u8]
}

/// The vector index format version this library writes and reads.
pub const VECTOR_FORMAT_VERSION: u32 = 1;

/// A dense index: one row of `dimensions` components per document id.
/// Components are held as the bit patterns of their `f32` values.
#[derive(Debug)]
pub struct VectorIndex {
    /// Embedding profile the vectors were built with.
    pub profile: String,
    /// Components per row.
    pub dimensions: usize,
    /// Document ids, one per row.
    pub ids: Vec<String>,
    /// The rows, one after the other.
    pub vectors: Vec<u32>,
}

/// Why a vector index could not be written or read.
#[derive(Debug, Clone, Copy, PartialEq, Eq, Structural)]
pub enum VectorFormatError {
    /// The dimension does not fit the format's `u32`.
    DimensionTooLarge,
    /// The profile name is longer than the format's `u32` length.
    ProfileTooLong,
    /// A document id is longer than the format's `u32` length.
    IdTooLong,
    /// The bytes do not start with the magic.
    BadMagic,
    /// The format version is not the one this library reads.
    UnsupportedVersion { found: u32 },
    /// The row count does not fit a `usize`.
    CountOverflow,
    /// Rows of no components.
    ZeroDimensional,
    /// The profile name is not UTF-8.
    BadProfile,
    /// Rows times components overflows a `usize`.
    AllocationOverflow,
    /// A document id is not UTF-8.
    BadId,
    /// The bytes end early.
    Truncated,
    /// Bytes follow the last row.
    TrailingBytes,
}

/// The `n` little-endian bytes of `x`.
pub open spec fn le_bytes(x: nat, n: nat) -> Seq<u8>
    decreases n,
{
    if n == 0 {
        Seq::empty()
    } else {
        seq![(x % 256) as u8] + le_bytes(x / 256, (n - 1) as nat)
    }
}

/// The bytes of a row: each component as four little-endian bytes.
pub open spec fn row_bytes(row: Seq<u32>) -> Seq<u8>
    decreases row.len(),
{
    if row.len() == 0 {
        Seq::empty()
    } else {
        le_bytes(row[0] as nat, 4) + row_bytes(row.drop_first())
    }
}

/// The bytes of the rows of `ids`: each id's UTF-8 length (four bytes),
/// the id, and its row of `d` components.
pub open spec fn records_bytes(ids: Seq<Seq<char>>, vectors: Seq<u32>, d: nat) -> Seq<u8>
    decreases ids.len(),
{
    if ids.len() == 0 {
        Seq::empty()
    } else {
        le_bytes(encode_utf8(ids[0]).len(), 4) + encode_utf8(ids[0]) + row_bytes(vectors.take(d as int))
            + records_bytes(ids.drop_first(), vectors.skip(d as int), d)
    }
}

/// The index as plain values: profile, dimensions, ids, components.
pub type IndexView = (Seq<char>, nat, Seq<Seq<char>>, Seq<u32>);

/// The plain values of an index.
pub open spec fn index_view(ix: VectorIndex) -> IndexView {
    (ix.profile@, ix.dimensions as nat, ix.ids@.map_values(|s: String| s@), ix.vectors@)
}

/// The encoding of an index: magic, version, dimensions, row count,
/// profile length and profile, then the rows.
pub open spec fn index_bytes(v: IndexView) -> Seq<u8> {
    vector_magic() + le_bytes(VECTOR_FORMAT_VERSION as nat, 4) + le_bytes(v.1, 4) + le_bytes(
        v.2.len(),
        8,
    ) + le_bytes(encode_utf8(v.0).len(), 4) + encode_utf8(v.0) + records_bytes(v.2, v.3, v.1)
}

/// The first of the first `n` ids too long for the format.
pub open spec fn first_long_id(ids: Seq<Seq<char>>, n: int) -> Option<int>
    decreases n,
{
    if n <= 0 {
        None
    } else {
        match first_long_id(ids, n - 1) {
            Some(k) => Some(k),
            None => if encode_utf8(ids[n - 1]).len() > u32::MAX {
                Some(n - 1)
            } else {
                None
            },
        }
    }
}

/// What writing an index refuses: a dimension, then the profile, then
/// the first id that does not fit the format.
pub open spec fn encode_refusal(v: IndexView) -> Option<VectorFormatError> {
    if v.1 > u32::MAX {
        Some(VectorFormatError::DimensionTooLarge)
    } else if encode_utf8(v.0).len() > u32::MAX {
        Some(VectorFormatError::ProfileTooLong)
    } else if first_long_id(v.2, v.2.len() as int) is Some {
        Some(VectorFormatError::IdTooLong)
    } else {
        None
    }
}

/// Appends the `n` little-endian bytes of `x`.
fn push_le(out: &mut Vec<u8>, x: u64, n: usize)
    requires
        n <= 8,
    ensures
        final(out)@ == old(out)@ + le_bytes(x as nat, n as nat),
    decreases n,
{
    if n > 0 {
        out.push((x % 256) as u8);
        let ghost mid = out@;
        push_le(out, x / 256, n - 1);
        assert(final(out)@ =~= old(out)@ + le_bytes(x as nat, n as nat));
    }
}

/// Appends the bytes of `s`.
fn push_bytes(out: &mut Vec<u8>, s: &str)
    ensures
        final(out)@ == old(out)@ + encode_utf8(s@),
{
    let b = s.as_bytes();
    for i in 0..b.len()
        invariant
            b@ == encode_utf8(s@),
            out@ == old(out)@ + b@.take(i as int),
    {
        out.push(b[i]);
        assert(b@.take(i + 1) =~= b@.take(i as int).push(b@[i as int]));
    }
    assert(b@.take(b@.len() as int) =~= b@);
}

proof fn lemma_row_bytes_push(row: Seq<u32>, x: u32)
    ensures
        row_bytes(row.push(x)) == row_bytes(row) + le_bytes(x as nat, 4),
    decreases row.len(),
{
    if row.len() == 0 {
        assert(row.push(x).drop_first() =~= Seq::<u32>::empty());
        assert(row_bytes(Seq::<u32>::empty()) == Seq::<u8>::empty());
        assert(row_bytes(row.push(x)) =~= le_bytes(x as nat, 4) + Seq::<u8>::empty());
        assert(row_bytes(row) + le_bytes(x as nat, 4) =~= le_bytes(x as nat, 4));
    } else {
        assert(row.push(x).drop_first() =~= row.drop_first().push(x));
        lemma_row_bytes_push(row.drop_first(), x);
        assert(row_bytes(row.push(x)) =~= le_bytes(row[0] as nat, 4) + (row_bytes(row.drop_first())
            + le_bytes(x as nat, 4)));
    }
}

proof fn lemma_records_bytes_push(ids: Seq<Seq<char>>, vectors: Seq<u32>, d: nat, id: Seq<char>, row: Seq<u32>)
    requires
        vectors.len() == ids.len() * d,
        row.len() == d,
    ensures
        records_bytes(ids.push(id), vectors + row, d) == records_bytes(ids, vectors, d) + le_bytes(
            encode_utf8(id).len(),
            4,
        ) + encode_utf8(id) + row_bytes(row),
    decreases ids.len(),
{
    if ids.len() == 0 {
        assert(vectors =~= Seq::<u32>::empty());
        assert((vectors + row).take(d as int) =~= row);
        assert(ids.push(id).drop_first() =~= Seq::<Seq<char>>::empty());
        assert(records_bytes(ids.push(id), vectors + row, d) =~= le_bytes(encode_utf8(id).len(), 4)
            + encode_utf8(id) + row_bytes(row) + records_bytes(
            Seq::<Seq<char>>::empty(),
            (vectors + row).skip(d as int),
            d,
        ));
        assert(records_bytes(ids, vectors, d) == Seq::<u8>::empty());
        assert(records_bytes(ids.push(id), vectors + row, d) =~= records_bytes(ids, vectors, d)
            + le_bytes(encode_utf8(id).len(), 4) + encode_utf8(id) + row_bytes(row));
    } else {
        assert(vectors.len() == (ids.len() - 1) * d + d) by (nonlinear_arith)
            requires
                vectors.len() == ids.len() * d,
                ids.len() >= 1,
        ;
        let rest = vectors.skip(d as int);
        assert(rest.len() == ids.drop_first().len() * d);
        lemma_records_bytes_push(ids.drop_first(), rest, d, id, row);
        assert(ids.push(id).drop_first() =~= ids.drop_first().push(id));
        assert((vectors + row).take(d as int) =~= vectors.take(d as int));
        assert((vectors + row).skip(d as int) =~= rest + row);
        assert(ids.push(id)[0] == ids[0]);
        assert(records_bytes(ids.push(id), vectors + row, d) =~= records_bytes(ids, vectors, d)
            + le_bytes(encode_utf8(id).len(), 4) + encode_utf8(id) + row_bytes(row));
    }
}

/// Writes an index in the binary format: magic, version, dimensions, row
/// count, the profile, then each id with its row. Refuses a dimension, a
/// profile or an id that does not fit the format's 32-bit fields.
pub fn encode_index(ix: &VectorIndex) -> (r: Result<Vec<u8>, VectorFormatError>)
    requires
        ix.vectors@.len() == ix.ids@.len() * ix.dimensions,
    ensures
        match encode_refusal(index_view(*ix)) {
            Some(e) => r == Err::<Vec<u8>, VectorFormatError>(e),
            None => r matches Ok(b) && b@ == index_bytes(index_view(*ix)),
        },
{
    let ghost v = index_view(*ix);
    if ix.dimensions > 0xffff_ffff {
        return Err(VectorFormatError::DimensionTooLarge);
    }
    let pb = ix.profile.as_str().as_bytes();
    if pb.len() > 0xffff_ffff {
        return Err(VectorFormatError::ProfileTooLong);
    }
    let mut out: Vec<u8> = Vec::new();
    out.push(0x43);
    out.push(0x43);
    out.push(0x45);
    out.push(0x56);
    out.push(0x45);
    out.push(0x43);
    out.push(0x31);
    out.push(0x00);
    assert(out@ =~= vector_magic());
    push_le(&mut out, VECTOR_FORMAT_VERSION as u64, 4);
    push_le(&mut out, ix.dimensions as u64, 4);
    push_le(&mut out, ix.ids.len() as u64, 8);
    push_le(&mut out, pb.len() as u64, 4);
    push_bytes(&mut out, ix.profile.as_str());
    let ghost header = out@;
    let d = ix.dimensions;
    let ghost ids = v.2;
    for i in 0..ix.ids.len()
        invariant
            v == index_view(*ix),
            ids == v.2,
            d == ix.dimensions,
            d <= u32::MAX,
            encode_utf8(v.0).len() <= u32::MAX,
            ix.vectors@.len() == ix.ids@.len() * d,
            first_long_id(ids, i as int) is None,
            out@ == header + records_bytes(ids.take(i as int), ix.vectors@.take(i * d), d as nat),
    {
        let idb = ix.ids[i].as_str().as_bytes();
        assert(ids[i as int] == ix.ids@[i as int]@);
        if idb.len() > 0xffff_ffff {
            proof {
                lemma_first_long_stays(ids, i as int, ids.len() as int);
            }
            return Err(VectorFormatError::IdTooLong);
        }
        push_le(&mut out, idb.len() as u64, 4);
        push_bytes(&mut out, ix.ids[i].as_str());
        assert(i * d + d <= ix.vectors@.len()) by (nonlinear_arith)
            requires
                i < ix.ids@.len(),
                ix.vectors@.len() == ix.ids@.len() * d,
        ;
        assert(ix.vectors@.len() == ix.vectors.len());
        let base = i * d;
        let ghost before_row = out@;
        for j in 0..d
            invariant
                base + d <= ix.vectors.len(),
                out@ == before_row + row_bytes(ix.vectors@.subrange(base as int, (base + j) as int)),
        {
            let x = ix.vectors[base + j];
            push_le(&mut out, x as u64, 4);
            proof {
                lemma_row_bytes_push(ix.vectors@.subrange(base as int, (base + j) as int), x);
                assert(ix.vectors@.subrange(base as int, (base + j) as int).push(x) =~= ix.vectors@.subrange(
                    base as int,
                    (base + j + 1) as int,
                ));
            }
        }
        proof {
            let row = ix.vectors@.subrange(base as int, (base + d) as int);
            assert(ids.take(i as int).len() == i);
            assert(ix.vectors@.take(i * d).len() == ids.take(i as int).len() * d);
            lemma_records_bytes_push(ids.take(i as int), ix.vectors@.take(i * d), d as nat, ids[i as int], row);
            assert(ids.take(i as int).push(ids[i as int]) =~= ids.take(i + 1));
            assert((i + 1) * d == i * d + d) by (nonlinear_arith);
            assert(ix.vectors@.take(i * d) + row =~= ix.vectors@.take((i + 1) * d));
            assert(first_long_id(ids, i + 1) is None);
        }
    }
    proof {
        assert(ids.take(ids.len() as int) =~= ids);
        assert(ix.vectors@.take(ix.ids@.len() * d) =~= ix.vectors@);
    }
    Ok(out)
}

proof fn lemma_first_long_stays(ids: Seq<Seq<char>>, k: int, n: int)
    requires
        0 <= k < n <= ids.len(),
        first_long_id(ids, k) is None,
        encode_utf8(ids[k]).len() > u32::MAX,
    ensures
        first_long_id(ids, n) == Some(k),
    decreases n,
{
    if n > k + 1 {
        lemma_first_long_stays(ids, k, n - 1);
    }
}

/// Reads `n` components (four little-endian bytes each) from the front
/// of `b`, with the bytes after them.
pub open spec fn parse_row(b: Seq<u8>, n: nat) -> Option<(Seq<u32>, Seq<u8>)>
    decreases n,
{
    if n == 0 {
        Some((Seq::empty(), b))
    } else if b.len() < 4 {
        None
    } else {
        match parse_row(b.skip(4), (n - 1) as nat) {
            Some((r, rest)) => Some((seq![le_value(b.take(4)) as u32] + r, rest)),
            None => None,
        }
    }
}

/// Reads `n` records (id length, id, row of `d` components) from the
/// front of `b`: the ids, the rows one after the other, and the bytes
/// after them; or the first fault.
pub open spec fn parse_records(b: Seq<u8>, d: nat, n: nat) -> Result<
    (Seq<Seq<char>>, Seq<u32>, Seq<u8>),
    VectorFormatError,
>
    decreases n,
{
    if n == 0 {
        Ok((Seq::empty(), Seq::empty(), b))
    } else if b.len() < 4 {
        Err(VectorFormatError::Truncated)
    } else {
        let len = le_value(b.take(4));
        let b1 = b.skip(4);
        if b1.len() < len {
            Err(VectorFormatError::Truncated)
        } else if !valid_utf8(b1.take(len as int)) {
            Err(VectorFormatError::BadId)
        } else {
            match parse_row(b1.skip(len as int), d) {
                None => Err(VectorFormatError::Truncated),
                Some((row, b2)) => match parse_records(b2, d, (n - 1) as nat) {
                    Err(e) => Err(e),
                    Ok((ids, vs, rest)) => Ok(
                        (seq![decode_utf8(b1.take(len as int))] + ids, row + vs, rest),
                    ),
                },
            }
        }
    }
}

/// Reads a whole index: magic, version, dimensions, row count (which must
/// fit a `usize`, and be zero when rows have no components), profile,
/// then the records (rows times components must fit a `usize`), with no
/// bytes left over; or the first fault.
pub open spec fn parse_index(b: Seq<u8>) -> Result<IndexView, VectorFormatError> {
    if b.len() < 8 {
        Err(VectorFormatError::Truncated)
    } else if b.take(8) != vector_magic() {
        Err(VectorFormatError::BadMagic)
    } else if b.len() < 12 {
        Err(VectorFormatError::Truncated)
    } else if le_value(b.subrange(8, 12)) != VECTOR_FORMAT_VERSION {
        Err(VectorFormatError::UnsupportedVersion { found: le_value(b.subrange(8, 12)) as u32 })
    } else if b.len() < 24 {
        Err(VectorFormatError::Truncated)
    } else {
        let dims = le_value(b.subrange(12, 16));
        let count = le_value(b.subrange(16, 24));
        if count > usize::MAX {
            Err(VectorFormatError::CountOverflow)
        } else if dims == 0 && count != 0 {
            Err(VectorFormatError::ZeroDimensional)
        } else if b.len() < 28 {
            Err(VectorFormatError::Truncated)
        } else {
            let plen = le_value(b.subrange(24, 28));
            let b1 = b.skip(28);
            if b1.len() < plen {
                Err(VectorFormatError::Truncated)
            } else if !valid_utf8(b1.take(plen as int)) {
                Err(VectorFormatError::BadProfile)
            } else if count * dims > usize::MAX {
                Err(VectorFormatError::AllocationOverflow)
            } else {
                match parse_records(b1.skip(plen as int), dims, count) {
                    Err(e) => Err(e),
                    Ok((ids, vs, rest)) => if rest.len() > 0 {
                        Err(VectorFormatError::TrailingBytes)
                    } else {
                        Ok((decode_utf8(b1.take(plen as int)), dims, ids, vs))
                    },
                }
            }
        }
    }
}

fn is_magic(m: &Vec<u8>) -> (r: bool)
    requires
        m@.len() == 8,
    ensures
        r == (m@ == vector_magic()),
{
    let r = m[0] == 0x43 && m[1] == 0x43 && m[2] == 0x45 && m[3] == 0x56 && m[4] == 0x45 && m[5]
        == 0x43 && m[6] == 0x31 && m[7] == 0x00;
    if r {
        assert(m@ =~= vector_magic());
    }
    r
}

/// Reads one row of `d` components.
fn read_row(reader: &mut SliceReader, d: usize, out: &mut Vec<u32>) -> (ok: bool)
    requires
        old(reader).wf(),
    ensures
        final(reader).wf(),
        match parse_row(old(reader).remaining(), d as nat) {
            Some((row, rest)) => ok && final(out)@ == old(out)@ + row && final(reader).remaining()
                == rest,
            None => !ok,
        },
{
    let ghost start = reader.remaining();
    let ghost base = out@;
    for j in 0..d
        invariant
            reader.wf(),
            start == old(reader).remaining(),
            base == old(out)@,
            parse_row(start, d as nat) == match parse_row(reader.remaining(), (d - j) as nat) {
                Some((r, rest)) => Some((out@.skip(base.len() as int) + r, rest)),
                None => None::<(Seq<u32>, Seq<u8>)>,
            },
            out@.len() >= base.len(),
            out@.take(base.len() as int) == base,
    {
        let ghost cur = reader.remaining();
        let ghost done = out@.skip(base.len() as int);
        match reader.u32() {
            Ok(x) => {
                out.push(x);
                assert(out@.skip(base.len() as int) =~= done.push(x));
                assert(out@.take(base.len() as int) =~= base);
                proof {
                    match parse_row(reader.remaining(), (d - j - 1) as nat) {
                        Some((r, rest)) => {
                            assert(done + (seq![x] + r) =~= done.push(x) + r);
                        },
                        None => {},
                    }
                }
            },
            Err(_) => {
                assert(parse_row(cur, (d - j) as nat) is None);
                return false;
            },
        }
    }
    assert(out@ =~= base + out@.skip(base.len() as int));
    true
}

/// Reads a binary index back, with every integrity check of the format:
/// the result is exactly what `parse_index` reads from the bytes.
pub fn decode_index(bytes: &[u8]) -> (r: Result<VectorIndex, VectorFormatError>)
    ensures
        match parse_index(bytes@) {
            Ok(v) => r matches Ok(ix) && index_view(ix) == v,
            Err(e) => r == Err::<VectorIndex, VectorFormatError>(e),
        },
{
    let mut copy: Vec<u8> = Vec::new();
    for i in 0..bytes.len()
        invariant
            copy@ == bytes@.take(i as int),
    {
        copy.push(bytes[i]);
        assert(copy@ =~= bytes@.take(i + 1));
    }
    assert(copy@ =~= bytes@);
    let ghost b = bytes@;
    let mut reader = SliceReader::new(copy);
    let magic = match reader.take(8) {
        Ok(m) => m,
        Err(_) => return Err(VectorFormatError::Truncated),
    };
    assert(magic@ == b.take(8));
    if !is_magic(&magic) {
        return Err(VectorFormatError::BadMagic);
    }
    assert(reader.remaining() =~= b.skip(8));
    let version = match reader.u32() {
        Ok(x) => x,
        Err(_) => return Err(VectorFormatError::Truncated),
    };
    assert(b.skip(8).take(4) =~= b.subrange(8, 12));
    if version != VECTOR_FORMAT_VERSION {
        return Err(VectorFormatError::UnsupportedVersion { found: version });
    }
    assert(reader.remaining() =~= b.skip(12));
    let dims = match reader.u32() {
        Ok(x) => x,
        Err(_) => return Err(VectorFormatError::Truncated),
    };
    assert(b.skip(12).take(4) =~= b.subrange(12, 16));
    assert(reader.remaining() =~= b.skip(16));
    let count64 = match reader.u64() {
        Ok(x) => x,
        Err(_) => return Err(VectorFormatError::Truncated),
    };
    assert(b.skip(16).take(8) =~= b.subrange(16, 24));
    assert(reader.remaining() =~= b.skip(24));
    if count64 > usize::MAX as u64 {
        return Err(VectorFormatError::CountOverflow);
    }
    let count = count64 as usize;
    let d = dims as usize;
    if d == 0 && count != 0 {
        return Err(VectorFormatError::ZeroDimensional);
    }
    let plen = match reader.u32() {
        Ok(x) => x,
        Err(_) => return Err(VectorFormatError::Truncated),
    };
    assert(b.skip(24).take(4) =~= b.subrange(24, 28));
    assert(reader.remaining() =~= b.skip(28));
    let pbytes = match reader.take(plen as usize) {
        Ok(p) => p,
        Err(_) => return Err(VectorFormatError::Truncated),
    };
    let profile = match utf8_text(pbytes.as_slice()) {
        Some(p) => p,
        None => return Err(VectorFormatError::BadProfile),
    };
    if count.checked_mul(d).is_none() {
        return Err(VectorFormatError::AllocationOverflow);
    }
    let ghost start = reader.remaining();
    assert(start =~= b.skip(28).skip(plen as int));
    let mut ids: Vec<String> = Vec::new();
    let mut vectors: Vec<u32> = Vec::new();
    let ghost pv = profile@;
    assert(parse_index(b) == match parse_records(start, d as nat, count as nat) {
        Err(e) => Err(e),
        Ok((ids2, vs2, rest)) => if rest.len() > 0 {
            Err(VectorFormatError::TrailingBytes)
        } else {
            Ok((pv, d as nat, ids2, vs2))
        },
    });
    for i in 0..count
        invariant
            reader.wf(),
            b == bytes@,
            parse_index(b) == match parse_records(start, d as nat, count as nat) {
                Err(e) => Err(e),
                Ok((ids2, vs2, rest)) => if rest.len() > 0 {
                    Err(VectorFormatError::TrailingBytes)
                } else {
                    Ok((pv, d as nat, ids2, vs2))
                },
            },
            parse_records(start, d as nat, count as nat) == match parse_records(
                reader.remaining(),
                d as nat,
                (count - i) as nat,
            ) {
                Ok((ids2, vs2, rest)) => Ok::<(Seq<Seq<char>>, Seq<u32>, Seq<u8>), VectorFormatError>(
                    (ids@.map_values(|s: String| s@) + ids2, vectors@ + vs2, rest),
                ),
                Err(e) => Err(e),
            },
    {
        let ghost cur = reader.remaining();
        let ghost idv = ids@.map_values(|s: String| s@);
        let ghost vv = vectors@;
        let len = match reader.u32() {
            Ok(x) => x,
            Err(_) => {
                assert(parse_records(cur, d as nat, (count - i) as nat) matches Err(e) && e
                    == VectorFormatError::Truncated);
                return Err(VectorFormatError::Truncated);
            },
        };
        let ib = match reader.take(len as usize) {
            Ok(x) => x,
            Err(_) => {
                assert(parse_records(cur, d as nat, (count - i) as nat) matches Err(e) && e
                    == VectorFormatError::Truncated);
                return Err(VectorFormatError::Truncated);
            },
        };
        assert(ib@ == cur.skip(4).take(len as int));
        let id = match utf8_text(ib.as_slice()) {
            Some(t) => t,
            None => {
                assert(parse_records(cur, d as nat, (count - i) as nat) matches Err(e) && e
                    == VectorFormatError::BadId);
                return Err(VectorFormatError::BadId);
            },
        };
        let ghost row_start = reader.remaining();
        let ghost before = vectors@;
        assert(row_start == cur.skip(4).skip(len as int));
        if !read_row(&mut reader, d, &mut vectors) {
            assert(parse_records(cur, d as nat, (count - i) as nat) matches Err(e) && e
                == VectorFormatError::Truncated);
            return Err(VectorFormatError::Truncated);
        }
        ids.push(id);
        proof {
            let (row, b2) = parse_row(row_start, d as nat).unwrap();
            assert(ids@.map_values(|s: String| s@) =~= idv.push(decode_utf8(cur.skip(4).take(len as int))));
            match parse_records(b2, d as nat, (count - i - 1) as nat) {
                Ok((ids2, vs2, rest)) => {
                    assert(idv + (seq![decode_utf8(cur.skip(4).take(len as int))] + ids2) =~= idv.push(
                        decode_utf8(cur.skip(4).take(len as int)),
                    ) + ids2);
                    assert(vv + (row + vs2) =~= (vv + row) + vs2);
                },
                Err(e) => {},
            }
        }
    }
    assert(ids@.map_values(|s: String| s@) + Seq::<Seq<char>>::empty() =~= ids@.map_values(
        |s: String| s@,
    ));
    assert(vectors@ + Seq::<u32>::empty() =~= vectors@);
    if !reader.is_empty() {
        return Err(VectorFormatError::TrailingBytes);
    }
    Ok(VectorIndex { profile, dimensions: d, ids, vectors })
}

proof fn lemma_le_bytes(x: nat, n: nat)
    ensures
        le_bytes(x, n).len() == n,
        x < pow256(n) ==> le_value(le_bytes(x, n)) == x,
    decreases n,
{
    if n > 0 {
        lemma_le_bytes(x / 256, (n - 1) as nat);
        let b = le_bytes(x, n);
        assert(b.drop_first() =~= le_bytes(x / 256, (n - 1) as nat));
        if x < pow256(n) {
            assert(x / 256 < pow256((n - 1) as nat)) by (nonlinear_arith)
                requires
                    x < pow256(n),
                    pow256(n) == 256 * pow256((n - 1) as nat),
            ;
        }
    }
}

/// `256` to the `n`.
pub open spec fn pow256(n: nat) -> nat
    decreases n,
{
    if n == 0 {
        1
    } else {
        256 * pow256((n - 1) as nat)
    }
}

proof fn lemma_parse_row(row: Seq<u32>, tail: Seq<u8>)
    ensures
        parse_row(row_bytes(row) + tail, row.len()) == Some((row, tail)),
    decreases row.len(),
{
    if row.len() > 0 {
        let b = row_bytes(row) + tail;
        lemma_le_bytes(row[0] as nat, 4);
        assert(pow256(4) == 4294967296) by {
            reveal_with_fuel(pow256, 5);
        }
        lemma_parse_row(row.drop_first(), tail);
        assert(b.take(4) =~= le_bytes(row[0] as nat, 4));
        assert(b.skip(4) =~= row_bytes(row.drop_first()) + tail);
        assert(seq![row[0]] + row.drop_first() =~= row);
    }
}

proof fn lemma_parse_records(ids: Seq<Seq<char>>, vs: Seq<u32>, d: nat, tail: Seq<u8>)
    requires
        vs.len() == ids.len() * d,
        first_long_id(ids, ids.len() as int) is None,
    ensures
        parse_records(records_bytes(ids, vs, d) + tail, d, ids.len()) == Ok::<
            (Seq<Seq<char>>, Seq<u32>, Seq<u8>),
            VectorFormatError,
        >((ids, vs, tail)),
    decreases ids.len(),
{
    broadcast use vstd::utf8::encode_utf8_valid_utf8, vstd::utf8::encode_utf8_decode_utf8;
    if ids.len() > 0 {
        let id = encode_utf8(ids[0]);
        lemma_first_long_prefix(ids, 1, ids.len() as int);
        lemma_first_long_tail(ids);
        assert(vs.len() == d + (ids.len() - 1) * d && (ids.len() - 1) * d >= 0) by (nonlinear_arith)
            requires
                vs.len() == ids.len() * d,
                ids.len() >= 1,
        ;
        let row = vs.take(d as int);
        let rest = vs.skip(d as int);
        assert(row.len() == d);
        assert(rest.len() == ids.drop_first().len() * d);
        lemma_parse_records(ids.drop_first(), rest, d, tail);
        lemma_le_bytes(id.len(), 4);
        assert(pow256(4) == 4294967296) by {
            reveal_with_fuel(pow256, 5);
        }
        let more = records_bytes(ids.drop_first(), rest, d) + tail;
        lemma_parse_row(row, more);
        let b = records_bytes(ids, vs, d) + tail;
        assert(b =~= le_bytes(id.len(), 4) + id + row_bytes(row) + more);
        assert(b.take(4) =~= le_bytes(id.len(), 4));
        let b1 = b.skip(4);
        assert(b1 =~= id + row_bytes(row) + more);
        assert(b1.take(id.len() as int) =~= id);
        assert(b1.skip(id.len() as int) =~= row_bytes(row) + more);
        assert(seq![ids[0]] + ids.drop_first() =~= ids);
        assert(row + rest =~= vs);
        assert(parse_row(b1.skip(id.len() as int), d) == Some((row, more)));
        assert(decode_utf8(b1.take(id.len() as int)) == ids[0]);
        assert(encode_utf8(ids[0]).len() <= u32::MAX);
        assert(le_value(b.take(4)) == id.len());
        assert(valid_utf8(b1.take(id.len() as int)));
        assert(b1.len() >= id.len());
        assert(parse_records(more, d, (ids.len() - 1) as nat) == Ok::<
            (Seq<Seq<char>>, Seq<u32>, Seq<u8>),
            VectorFormatError,
        >((ids.drop_first(), rest, tail)));
        assert(b.skip(4) == b1);
        assert(parse_records(b, d, ids.len()) == Ok::<
            (Seq<Seq<char>>, Seq<u32>, Seq<u8>),
            VectorFormatError,
        >((seq![decode_utf8(b1.take(id.len() as int))] + ids.drop_first(), row + rest, tail)));
        assert(seq![decode_utf8(b1.take(id.len() as int))] + ids.drop_first() =~= ids);
    } else {
        assert(vs =~= Seq::<u32>::empty());
        assert(ids =~= Seq::<Seq<char>>::empty());
        assert(records_bytes(ids, vs, d) + tail =~= tail);
    }
}

proof fn lemma_first_long_prefix(ids: Seq<Seq<char>>, k: int, n: int)
    requires
        0 <= k <= n <= ids.len(),
        first_long_id(ids, n) is None,
    ensures
        first_long_id(ids, k) is None,
        forall|j: int| 0 <= j < n ==> encode_utf8(#[trigger] ids[j]).len() <= u32::MAX,
    decreases n,
{
    if n > 0 {
        lemma_first_long_prefix(ids, if k == n { n - 1 } else { k }, n - 1);
    }
}

proof fn lemma_first_long_tail(ids: Seq<Seq<char>>)
    requires
        ids.len() > 0,
        first_long_id(ids, ids.len() as int) is None,
    ensures
        first_long_id(ids.drop_first(), ids.drop_first().len() as int) is None,
{
    lemma_first_long_prefix(ids, 0, ids.len() as int);
    lemma_no_long_id(ids.drop_first(), ids.drop_first().len() as int);
}

proof fn lemma_no_long_id(ids: Seq<Seq<char>>, n: int)
    requires
        0 <= n <= ids.len(),
        forall|j: int| 0 <= j < n ==> encode_utf8(#[trigger] ids[j]).len() <= u32::MAX,
    ensures
        first_long_id(ids, n) is None,
    decreases n,
{
    if n > 0 {
        lemma_no_long_id(ids, n - 1);
    }
}

/// An index the format can hold: every row complete, rows of at least one
/// component unless there are none, and fields within the format's sizes.
pub open spec fn encodable(v: IndexView) -> bool {
    &&& v.1 > 0 || v.2.len() == 0
    &&& v.3.len() == v.2.len() * v.1
    &&& v.2.len() <= usize::MAX
    &&& v.3.len() <= usize::MAX
    &&& encode_refusal(v) is None
}

/// Reading back what was written gives the index back, and any byte after
/// the encoding is refused as trailing: parsing the encoding of an index
/// the format can hold, followed by `tail`, yields the index when `tail`
/// is empty and `TrailingBytes` otherwise.
pub proof fn law_vector_index_round_trip(v: IndexView, tail: Seq<u8>)
    requires
        encodable(v),
    ensures
        parse_index(index_bytes(v) + tail) == if tail.len() == 0 {
            Ok::<IndexView, VectorFormatError>(v)
        } else {
            Err(VectorFormatError::TrailingBytes)
        },
{
    broadcast use vstd::utf8::encode_utf8_valid_utf8, vstd::utf8::encode_utf8_decode_utf8;
    let b = index_bytes(v) + tail;
    let p = encode_utf8(v.0);
    lemma_header(v);
    let recs = records_bytes(v.2, v.3, v.1);
    lemma_parse_records(v.2, v.3, v.1, tail);
    assert(b.take(8) =~= vector_magic());
    assert(b.subrange(8, 12) =~= le_bytes(VECTOR_FORMAT_VERSION as nat, 4));
    assert(b.subrange(12, 16) =~= le_bytes(v.1, 4));
    assert(b.subrange(16, 24) =~= le_bytes(v.2.len(), 8));
    assert(b.subrange(24, 28) =~= le_bytes(p.len(), 4));
    assert(b.skip(28) =~= p + (recs + tail));
    assert((p + (recs + tail)).take(p.len() as int) =~= p);
    assert((p + (recs + tail)).skip(p.len() as int) =~= recs + tail);
    assert(v.2.len() * v.1 == v.3.len());
}

/// The fixed-size header fields of an encodable index read back.
proof fn lemma_header(v: IndexView)
    requires
        encodable(v),
    ensures
        le_bytes(VECTOR_FORMAT_VERSION as nat, 4).len() == 4,
        le_value(le_bytes(VECTOR_FORMAT_VERSION as nat, 4)) == VECTOR_FORMAT_VERSION,
        le_bytes(v.1, 4).len() == 4,
        le_value(le_bytes(v.1, 4)) == v.1,
        le_bytes(v.2.len(), 8).len() == 8,
        le_value(le_bytes(v.2.len(), 8)) == v.2.len(),
        le_bytes(encode_utf8(v.0).len(), 4).len() == 4,
        le_value(le_bytes(encode_utf8(v.0).len(), 4)) == encode_utf8(v.0).len(),
        v.2.len() <= usize::MAX,
{
    assert(pow256(4) == 4294967296) by {
        reveal_with_fuel(pow256, 5);
    }
    assert(pow256(8) == 18446744073709551616) by {
        reveal_with_fuel(pow256, 9);
    }
    lemma_le_bytes(VECTOR_FORMAT_VERSION as nat, 4);
    lemma_le_bytes(v.1, 4);
    lemma_le_bytes(v.2.len(), 8);
    lemma_le_bytes(encode_utf8(v.0).len(), 4);
}

/// A cut row does not read as a row.
proof fn lemma_row_prefix(row: Seq<u32>, j: int)
    requires
        0 <= j < 4 * row.len(),
    ensures
        row_bytes(row).len() == 4 * row.len(),
        parse_row(row_bytes(row).take(j), row.len()) is None,
    decreases row.len(),
{
    lemma_row_len(row);
    lemma_le_bytes(row[0] as nat, 4);
    let b = row_bytes(row).take(j);
    if j >= 4 {
        lemma_row_len(row.drop_first());
        lemma_row_prefix(row.drop_first(), j - 4);
        assert(b.skip(4) =~= row_bytes(row.drop_first()).take(j - 4));
    }
}

proof fn lemma_row_len(row: Seq<u32>)
    ensures
        row_bytes(row).len() == 4 * row.len(),
    decreases row.len(),
{
    if row.len() > 0 {
        lemma_le_bytes(row[0] as nat, 4);
        lemma_row_len(row.drop_first());
    }
}

/// A cut run of records does not read as the records.
proof fn lemma_records_prefix(ids: Seq<Seq<char>>, vs: Seq<u32>, d: nat, m: int)
    requires
        vs.len() == ids.len() * d,
        first_long_id(ids, ids.len() as int) is None,
        0 <= m < records_bytes(ids, vs, d).len(),
    ensures
        parse_records(records_bytes(ids, vs, d).take(m), d, ids.len()) is Err,
    decreases ids.len(),
{
    broadcast use vstd::utf8::encode_utf8_valid_utf8, vstd::utf8::encode_utf8_decode_utf8;
    if ids.len() == 0 {
        assert(records_bytes(ids, vs, d).len() == 0);
    } else {
        let id = encode_utf8(ids[0]);
        lemma_first_long_prefix(ids, 1, ids.len() as int);
        lemma_first_long_tail(ids);
        assert(vs.len() == d + (ids.len() - 1) * d && (ids.len() - 1) * d >= 0) by (nonlinear_arith)
            requires
                vs.len() == ids.len() * d,
                ids.len() >= 1,
        ;
        let row = vs.take(d as int);
        let rest = vs.skip(d as int);
        assert(row.len() == d);
        assert(rest.len() == ids.drop_first().len() * d);
        lemma_le_bytes(id.len(), 4);
        assert(pow256(4) == 4294967296) by {
            reveal_with_fuel(pow256, 5);
        }
        lemma_row_len(row);
        let more = records_bytes(ids.drop_first(), rest, d);
        let full = records_bytes(ids, vs, d);
        assert(full =~= le_bytes(id.len(), 4) + id + row_bytes(row) + more);
        let b = full.take(m);
        if m >= 4 {
            assert(b.take(4) =~= le_bytes(id.len(), 4));
            let b1 = b.skip(4);
            assert(le_value(b.take(4)) == id.len());
            if m - 4 >= id.len() {
                assert(b1.take(id.len() as int) =~= id);
                let j = m - 4 - id.len();
                if j < 4 * d {
                    lemma_row_prefix(row, j);
                    assert(b1.skip(id.len() as int) =~= row_bytes(row).take(j));
                } else {
                    let k = j - 4 * d;
                    assert(b1.skip(id.len() as int) =~= row_bytes(row) + more.take(k));
                    lemma_parse_row(row, more.take(k));
                    lemma_records_prefix(ids.drop_first(), rest, d, k);
                }
            }
        }
    }
}

/// No proper prefix of an encoding reads as an index.
pub proof fn law_vector_index_prefix_refused(v: IndexView, k: int)
    requires
        encodable(v),
        0 <= k < index_bytes(v).len(),
    ensures
        parse_index(index_bytes(v).take(k)) is Err,
{
    broadcast use vstd::utf8::encode_utf8_valid_utf8, vstd::utf8::encode_utf8_decode_utf8;
    let full = index_bytes(v);
    let b = full.take(k);
    let p = encode_utf8(v.0);
    lemma_header(v);
    let recs = records_bytes(v.2, v.3, v.1);
    assert(full.take(8) =~= vector_magic());
    assert(full.subrange(8, 12) =~= le_bytes(VECTOR_FORMAT_VERSION as nat, 4));
    assert(full.subrange(12, 16) =~= le_bytes(v.1, 4));
    assert(full.subrange(16, 24) =~= le_bytes(v.2.len(), 8));
    assert(full.subrange(24, 28) =~= le_bytes(p.len(), 4));
    assert(full.skip(28) =~= p + recs);
    if k >= 8 {
        assert(b.take(8) =~= full.take(8));
    }
    if k >= 12 {
        assert(b.subrange(8, 12) =~= full.subrange(8, 12));
    }
    if k >= 24 {
        assert(b.subrange(12, 16) =~= full.subrange(12, 16));
        assert(b.subrange(16, 24) =~= full.subrange(16, 24));
    }
    if k >= 28 {
        assert(b.subrange(24, 28) =~= full.subrange(24, 28));
        let b1 = b.skip(28);
        assert(b1 =~= (p + recs).take(k - 28));
        if k - 28 >= p.len() {
            assert(b1.take(p.len() as int) =~= p);
            let m = k - 28 - p.len();
            assert(b1.skip(p.len() as int) =~= recs.take(m));
            lemma_records_prefix(v.2, v.3, v.1, m);
            assert(v.2.len() * v.1 == v.3.len());
        }
    }
}

// ---- the dense view's status ---------------------------------------------------------

/// How building the dense view went.
#[derive(Debug)]
pub enum DenseBuild {
    /// The embedding backend could not start.
    BackendFailed { error: String },
    /// No embedding backend is configured.
    NoBackend,
    /// The index was built and stored under `digest`.
    Built { digest: String },
    /// Building or storing the index failed.
    BuildFailed { error: String },
}

/// Why baseline vectors are not production retrieval.
pub const BASELINE_REASON: &'static str =
    "deterministic hash embeddings are a reproducible baseline, not semantic production retrieval";

/// Documents embedded per batch: fewer for a local model.
pub fn dense_batch_size(config: &DenseBackendConfig) -> (r: usize)
    ensures
        r == if *config is Local { 32usize } else { 64usize },
{
    match config {
        DenseBackendConfig::Local { .. } => 32,
        _ => 64,
    }
}

/// The status recorded while the dense view is being built.
pub fn dense_building_status(stamp: &SnapshotStamp) -> (r: ViewStatus)
    ensures
        stamped_by(r, *stamp),
        r.state == ViewState::Building,
        r.capabilities@.len() == 1,
        r.capabilities@[0].name@ == "flat_inner_product"@,
        r.capabilities@[0].level@ == "building"@,
        r.capabilities@[0].reason is None,
        r.message is None,
        r.artifact_digest is None,
{
    let capability = Capability { name: owned("flat_inner_product"), level: owned("building"), reason: None };
    ViewStatus {
        snapshot_id: copy_string(&stamp.snapshot_id),
        profile_hash: copy_string(&stamp.profile_hash),
        state: ViewState::Building,
        capabilities: vec![capability],
        message: None,
        artifact_digest: None,
    }
}

/// The status recorded once the dense view's build has ended:
/// `Failed` with the error when the backend or the build failed,
/// `Unavailable` without a backend, else `Ready` for a production backend
/// and `Partial` (benchmark only) for the baseline, with the index digest.
pub fn dense_view_status(stamp: &SnapshotStamp, outcome: DenseBuild, production_ready: bool) -> (r: ViewStatus)
    ensures
        stamped_by(r, *stamp),
        match outcome {
            DenseBuild::BackendFailed { error } => {
                &&& r.state == ViewState::Failed
                &&& r.capabilities@.len() == 0
                &&& r.message matches Some(m) && m@ == "embedding backend init failed: "@ + error@
                &&& r.artifact_digest is None
            },
            DenseBuild::NoBackend => {
                &&& r.state == ViewState::Unavailable
                &&& r.capabilities@.len() == 0
                &&& r.message matches Some(m) && m@
                    == "No embedding backend selected; lexical and structural views remain available"@
                &&& r.artifact_digest is None
            },
            DenseBuild::BuildFailed { error } => r.state == ViewState::Failed && r.capabilities@.len()
                == 0 && r.message == Some(error) && r.artifact_digest is None,
            DenseBuild::Built { digest } => r.state == (if production_ready {
                ViewState::Ready
            } else {
                ViewState::Partial
            }) && r.capabilities@.len() == 1 && r.capabilities@[0].name@ == "flat_inner_product"@
                && r.capabilities@[0].level@ == (if production_ready {
                "production"@
            } else {
                "benchmark_only"@
            }) && (if production_ready {
                r.capabilities@[0].reason is None
            } else {
                r.capabilities@[0].reason matches Some(x) && x@ == BASELINE_REASON@
            }) && r.message is None && r.artifact_digest == Some(digest),
        },
{
    match outcome {
        DenseBuild::BackendFailed { error } => {
            let mut m = chars_of("embedding backend init failed: ");
            push_str(&mut m, error.as_str());
            ViewStatus {
                snapshot_id: copy_string(&stamp.snapshot_id),
                profile_hash: copy_string(&stamp.profile_hash),
                state: ViewState::Failed,
                capabilities: Vec::new(),
                message: Some(string_of(&m)),
                artifact_digest: None,
            }
        },
        DenseBuild::NoBackend => ViewStatus {
            snapshot_id: copy_string(&stamp.snapshot_id),
            profile_hash: copy_string(&stamp.profile_hash),
            state: ViewState::Unavailable,
            capabilities: Vec::new(),
            message: Some(owned("No embedding backend selected; lexical and structural views remain available")),
            artifact_digest: None,
        },
        DenseBuild::BuildFailed { error } => ViewStatus {
            snapshot_id: copy_string(&stamp.snapshot_id),
            profile_hash: copy_string(&stamp.profile_hash),
            state: ViewState::Failed,
            capabilities: Vec::new(),
            message: Some(error),
            artifact_digest: None,
        },
        DenseBuild::Built { digest } => {
            let capability = Capability {
                name: owned("flat_inner_product"),
                level: if production_ready { owned("production") } else { owned("benchmark_only") },
                reason: if production_ready { None } else { Some(owned(BASELINE_REASON)) },
            };
            ViewStatus {
                snapshot_id: copy_string(&stamp.snapshot_id),
                profile_hash: copy_string(&stamp.profile_hash),
                state: if production_ready { ViewState::Ready } else { ViewState::Partial },
                capabilities: vec![capability],
                message: None,
                artifact_digest: Some(digest),
            }
        },
    }
}

} // verus!
