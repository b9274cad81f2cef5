//! Block identifiers: a 32-byte hash plus a slot index, with a prefixed
//! hexadecimal string form and a packed 36-byte binary form.

use vstd::prelude::*;

verus! {

/// The index of a slot, stored little-endian in the packed form.
#[derive(Clone, Copy, PartialEq, Eq, Structural, Debug, Hash)]
pub struct SlotIndex(pub u32);

/// The little-endian bytes of a slot index.
pub open spec fn slot_bytes(v: u32) -> Seq<u8> {
    Seq::new(4, |i: int| (v >> ((8 * i) as u32)) as u8)
}

/// Slot indices with the same little-endian bytes are the same index.
pub proof fn lemma_slot_bytes_injective(a: u32, b: u32)
    requires
        slot_bytes(a) == slot_bytes(b),
    ensures
        a == b,
{
    assert(slot_bytes(a)[0] == (a >> 0u32) as u8 && slot_bytes(b)[0] == (b >> 0u32) as u8);
    assert(slot_bytes(a)[1] == (a >> 8u32) as u8 && slot_bytes(b)[1] == (b >> 8u32) as u8);
    assert(slot_bytes(a)[2] == (a >> 16u32) as u8 && slot_bytes(b)[2] == (b >> 16u32) as u8);
    assert(slot_bytes(a)[3] == (a >> 24u32) as u8 && slot_bytes(b)[3] == (b >> 24u32) as u8);
    assert(a == b) by (bit_vector)
        requires
            (a >> 0u32) as u8 == (b >> 0u32) as u8,
            (a >> 8u32) as u8 == (b >> 8u32) as u8,
            (a >> 16u32) as u8 == (b >> 16u32) as u8,
            (a >> 24u32) as u8 == (b >> 24u32) as u8,
    ;
}

/// The hash part of a block identifier.
pub struct BlockHash {
    bytes: [u8; 32],
}

impl View for BlockHash {
    type V = Seq<u8>;

    closed spec fn view(&self) -> Seq<u8> {
        self.bytes@
    }
}

impl BlockHash {
    /// The byte length of a hash.
    pub const LENGTH: usize = 32;

    /// Wraps the raw hash bytes.
    pub fn new(bytes: [u8; 32]) -> (r: BlockHash)
        ensures
            r@ == bytes@,
    {
        BlockHash { bytes }
    }

    /// The raw hash bytes.
    pub fn as_slice(&self) -> (r: &[u8])
        ensures
            r@ == self@,
    {
        self.bytes.as_slice()
    }

    /// Pairs this hash with a slot index, giving a block identifier.
    pub fn with_slot_index(self, slot_index: SlotIndex) -> (r: BlockId)
        ensures
            r.hash_view() == self@,
            r.spec_slot_index() == slot_index,
            r@ == self@ + slot_bytes(slot_index.0),
    {
        BlockId { hash: self, slot_index }
    }
}

/// A block identifier. Its packed form is the hash followed by the
/// little-endian slot index, 36 bytes in all, on every target alike.
pub struct BlockId {
    hash: BlockHash,
    slot_index: SlotIndex,
}

impl View for BlockId {
    type V = Seq<u8>;

    closed spec fn view(&self) -> Seq<u8> {
        self.hash@ + slot_bytes(self.slot_index.0)
    }
}

/// An identifier's packed bytes are its hash part followed by the
/// little-endian bytes of its slot index; the hash part is 32 bytes. This
/// ties [`BlockId::hash`] and [`BlockId::slot_index`] to the packed form,
/// however the identifier was built.
pub proof fn lemma_block_id_parts(id: BlockId)
    ensures
        id@ == id.hash_view() + slot_bytes(id.spec_slot_index().0),
        id.hash_view().len() == 32,
        id@.len() == 36,
        id@.subrange(0, 32) == id.hash_view(),
        id@.subrange(32, 36) == slot_bytes(id.spec_slot_index().0),
{
    assert(id@.subrange(0, 32) =~= id.hash_view());
    assert(id@.subrange(32, 36) =~= slot_bytes(id.spec_slot_index().0));
}

impl BlockId {
    /// The byte length of a packed block identifier.
    pub const LENGTH: usize = 36;

    /// The hash part of the view.
    pub closed spec fn hash_view(&self) -> Seq<u8> {
        self.hash@
    }

    /// The slot index part.
    pub closed spec fn spec_slot_index(&self) -> SlotIndex {
        self.slot_index
    }

    /// Rebuilds an identifier from its 36 packed bytes.
    pub fn new(bytes: [u8; 36]) -> (r: BlockId)
        ensures
            r@ == bytes@,
            r.hash_view() == bytes@.subrange(0, 32),
            slot_bytes(r.spec_slot_index().0) == bytes@.subrange(32, 36),
    {
        let mut hash_bytes = [0u8; 32];
        let mut i: usize = 0;
        while i < 32
            invariant
                0 <= i <= 32,
                hash_bytes@.len() == 32,
                forall|j: int| 0 <= j < i ==> hash_bytes@[j] == bytes@[j],
        decreases 32 - i,
        {
            hash_bytes[i] = bytes[i];
            i += 1;
        }
        let slot = u32_from_le_bytes(bytes[32], bytes[33], bytes[34], bytes[35]);
        let r = BlockId { hash: BlockHash { bytes: hash_bytes }, slot_index: SlotIndex(slot) };
        proof {
            assert(hash_bytes@ =~= bytes@.subrange(0, 32));
            assert(slot_bytes(slot) =~= bytes@.subrange(32, 36));
            assert(r@ =~= bytes@);
        }
        r
    }

    /// The identifier's hash part: the first 32 packed bytes.
    pub fn hash(&self) -> (r: &BlockHash)
        ensures
            r@ == self.hash_view(),
            r@ == self@.subrange(0, 32),
    {
        proof {
            lemma_block_id_parts(*self);
        }
        &self.hash
    }

    /// The identifier's slot index part: the value the last four packed
    /// bytes encode little-endian, whatever the target's endianness.
    pub fn slot_index(&self) -> (r: SlotIndex)
        ensures
            r == self.spec_slot_index(),
            slot_bytes(r.0) == self@.subrange(32, 36),
    {
        proof {
            lemma_block_id_parts(*self);
        }
        self.slot_index
    }

    /// Packs the identifier: hash bytes, then the slot index little-endian.
    pub fn pack_to_vec(&self) -> (r: Vec<u8>)
        ensures
            r@ == self@,
    {
        let mut out: Vec<u8> = Vec::new();
        let mut i: usize = 0;
        while i < 32
            invariant
                0 <= i <= 32,
                out@.len() == i,
                forall|j: int| 0 <= j < i ==> out@[j] == self.hash@[j],
        decreases 32 - i,
        {
            out.push(self.hash.bytes[i]);
            i += 1;
        }
        let v = self.slot_index.0;
        out.push(v as u8);
        out.push((v >> 8) as u8);
        out.push((v >> 16) as u8);
        out.push((v >> 24) as u8);
        proof {
            assert(v as u8 == (v >> 0u32) as u8) by (bit_vector);
            assert(out@ =~= self@);
        }
        out
    }

    /// Unpacks an identifier from its binary form; fails exactly when the
    /// length is not 36 bytes.
    pub fn unpack(bytes: &[u8]) -> (r: Option<BlockId>)
        ensures
            r is Some <==> bytes@.len() == 36,
            r matches Some(id) ==> {
                &&& id@ == bytes@
                &&& id.hash_view() == bytes@.subrange(0, 32)
                &&& slot_bytes(id.spec_slot_index().0) == bytes@.subrange(32, 36)
            },
    {
        if bytes.len() != 36 {
            return None;
        }
        let mut hash_bytes = [0u8; 32];
        let mut i: usize = 0;
        while i < 32
            invariant
                0 <= i <= 32,
                bytes@.len() == 36,
                hash_bytes@.len() == 32,
                forall|j: int| 0 <= j < i ==> hash_bytes@[j] == bytes@[j],
        decreases 32 - i,
        {
            hash_bytes[i] = *slice_index(bytes, i);
            i += 1;
        }
        let slot = u32_from_le_bytes(
            *slice_index(bytes, 32),
            *slice_index(bytes, 33),
            *slice_index(bytes, 34),
            *slice_index(bytes, 35),
        );
        let r = BlockId { hash: BlockHash { bytes: hash_bytes }, slot_index: SlotIndex(slot) };
        proof {
            assert(hash_bytes@ =~= bytes@.subrange(0, 32));
            assert(slot_bytes(slot) =~= bytes@.subrange(32, 36));
            assert(r@ =~= bytes@);
        }
        Some(r)
    }

    /// Parses the prefixed hexadecimal string form: `0x` followed by
    /// seventy-two hexadecimal digits, upper or lower case. Succeeds
    /// exactly on that form and returns the encoded identifier. A string
    /// holding a character outside ASCII can never be of that form and is
    /// rejected outright.
    pub fn from_str(s: &str) -> (r: Result<BlockId, HexError>)
        ensures
            r is Ok <==> is_block_id_hex(s),
            r matches Ok(id) ==> id@ == hex_decoded(s@.skip(2)),
    {
        if !s.is_ascii() {
            return Err(HexError::InvalidStringLength);
        }
        match decode_prefix_hex_36(s) {
            Ok(b) => Ok(BlockId::new(b)),
            Err(e) => Err(e),
        }
    }

    /// The prefixed lower-case hexadecimal form of the packed identifier.
    pub fn to_hex(&self) -> (r: String)
        ensures
            r@ == hex_encoded(self@),
    {
        let packed = self.pack_to_vec();
        encode_prefix_hex(&packed)
    }
}

/// Why a prefixed-hex string failed to decode. Mirrors the decoder's own
/// error cases.
#[derive(Debug, PartialEq, Eq, Structural)]
pub enum HexError {
    InvalidPrefix { c0: char, c1: char },
    InvalidHexCharacter { c: char, index: usize },
    InvalidStringLength,
    InvalidStringLengthSlice { expected: usize, actual: usize },
    OddLength,
}

/// The accepted string form of an identifier: the `0x` prefix and
/// seventy-two hexadecimal digits, upper or lower case. Such a string is
/// necessarily pure ASCII; the conjunct is stated outright because the
/// prover cannot derive character validity for the view of an arbitrary
/// string.
pub open spec fn is_block_id_hex(s: &str) -> bool {
    &&& vstd::string::is_ascii(s)
    &&& s@.len() == 74
    &&& s@[0] == '0'
    &&& s@[1] == 'x'
    &&& forall|i: int| 2 <= i < 74 ==> is_hex_digit(#[trigger] s@[i])
}

/// Whether `c` is a hexadecimal digit, upper or lower case.
pub open spec fn is_hex_digit(c: char) -> bool {
    (48 <= c as u32 && c as u32 <= 57)  // '0' to '9'
     || (97 <= c as u32 && c as u32 <= 102)  // 'a' to 'f'
     || (65 <= c as u32 && c as u32 <= 70)  // 'A' to 'F'

}

/// The value of a hexadecimal digit.
pub open spec fn hex_digit_val(c: char) -> u8 {
    if 48 <= c as u32 && c as u32 <= 57 {
        ((c as u32) - 48) as u8
    } else if 97 <= c as u32 && c as u32 <= 102 {
        ((c as u32) - 87) as u8
    } else {
        ((c as u32) - 55) as u8
    }
}

/// The bytes encoded by an even-length run of hexadecimal digits.
pub open spec fn hex_decoded(s: Seq<char>) -> Seq<u8> {
    Seq::new((s.len() / 2) as nat, |i: int| (hex_digit_val(s[2 * i]) * 16 + hex_digit_val(s[2 * i + 1])) as u8)
}

/// The lower-case hexadecimal digit of a value below sixteen.
pub open spec fn hex_char_of(v: u8) -> char {
    if v < 10 {
        ((v + 48) as char)
    } else {
        ((v + 87) as char)
    }
}

/// The prefixed lower-case hexadecimal form of a byte sequence: `0x`, then
/// two digits per byte.
pub open spec fn hex_encoded(b: Seq<u8>) -> Seq<char> {
    seq!['0', 'x'] + Seq::new(
        (2 * b.len()) as nat,
        |i: int|
            if i % 2 == 0 {
                hex_char_of((b[i / 2] / 16) as u8)
            } else {
                hex_char_of((b[i / 2] % 16) as u8)
            },
    )
}

/// The hexadecimal form is faithful: encoding any bytes yields a string of
/// the accepted shape — the prefix, then hex digits — and decoding that
/// string gives the bytes back. In particular `from_str` accepts every
/// string `to_hex` produces and returns the identifier it printed.
pub proof fn lemma_hex_round_trip(b: Seq<u8>)
    ensures
        hex_encoded(b).len() == 2 + 2 * b.len(),
        hex_encoded(b)[0] == '0',
        hex_encoded(b)[1] == 'x',
        forall|i: int|
            2 <= i < hex_encoded(b).len() ==> is_hex_digit(#[trigger] hex_encoded(b)[i]),
        hex_decoded(hex_encoded(b).skip(2)) == b,
        vstd::utf8::is_ascii_chars(hex_encoded(b)),
{
    let s = hex_encoded(b);
    let d = s.skip(2);
    assert(d.len() == 2 * b.len());
    assert forall|v: u8|
        v < 16 implies is_hex_digit(hex_char_of(v)) && hex_digit_val(hex_char_of(v)) == v && '\0'
        <= hex_char_of(v) <= '\u{7f}' by {
        if v < 10 {
            assert(((v + 48) as char) as u32 == v + 48);
        } else {
            assert(((v + 87) as char) as u32 == v + 87);
        }
    }
    assert forall|i: int| 0 <= i < d.len() implies #[trigger] d[i] == (if i % 2 == 0 {
        hex_char_of((b[i / 2] / 16) as u8)
    } else {
        hex_char_of((b[i / 2] % 16) as u8)
    }) by {
        assert(s[i + 2] == d[i]);
    }
    assert forall|j: int| 0 <= j < b.len() implies #[trigger] hex_decoded(d)[j] == b[j] by {
        let hi = (b[j] / 16) as u8;
        let lo = (b[j] % 16) as u8;
        assert((2 * j) % 2 == 0 && (2 * j) / 2 == j);
        assert((2 * j + 1) % 2 == 1 && (2 * j + 1) / 2 == j);
        assert(d[2 * j] == hex_char_of(hi));
        assert(d[2 * j + 1] == hex_char_of(lo));
        assert(hex_digit_val(d[2 * j]) == hi);
        assert(hex_digit_val(d[2 * j + 1]) == lo);
        assert(b[j] == 16 * (b[j] as int / 16) + b[j] as int % 16);
        assert(hex_decoded(d)[j] == (hi * 16 + lo) as u8);
    }
    assert(hex_decoded(d) =~= b);
    assert forall|i: int| 2 <= i < s.len() implies is_hex_digit(#[trigger] s[i]) && '\0' <= s[i]
        <= '\u{7f}' by {
        assert(s[i] == d[i - 2]);
        if (i - 2) % 2 == 0 {
            assert(d[i - 2] == hex_char_of((b[(i - 2) / 2] / 16) as u8));
        } else {
            assert(d[i - 2] == hex_char_of((b[(i - 2) / 2] % 16) as u8));
        }
    }
    assert forall|i: int| 0 <= i < s.len() implies '\0' <= #[trigger] s[i] <= '\u{7f}' by {
        if i < 2 {
            assert(s[i] == '0' || s[i] == 'x');
        }
    }
}

/// Relies on `prefix_hex::decode` for `[u8; 36]`: it succeeds exactly on
/// `0x` followed by seventy-two hexadecimal digits, upper or lower case,
/// and returns the bytes they encode; its error cases are carried over one
/// to one. The ASCII precondition keeps out the one shape of input on
/// which the decoder's prefix check panics instead of returning: a string
/// without the prefix whose byte length is at least two but whose
/// character count is smaller (a short multi-byte string).
#[verifier::external_body]
fn decode_prefix_hex_36(s: &str) -> (r: Result<[u8; 36], HexError>)
    requires
        vstd::string::is_ascii(s),
    ensures
        r is Ok <==> is_block_id_hex(s),
        r matches Ok(b) ==> b@ == hex_decoded(s@.skip(2)),
{
    match prefix_hex::decode::<[u8; 36]>(s) {
        Ok(b) => Ok(b),
        Err(e) => Err(
            match e {
                prefix_hex::Error::InvalidPrefix { c0, c1 } => HexError::InvalidPrefix { c0, c1 },
                prefix_hex::Error::InvalidHexCharacter { c, index } => HexError::InvalidHexCharacter { c, index },
                prefix_hex::Error::InvalidStringLength => HexError::InvalidStringLength,
                prefix_hex::Error::InvalidStringLengthSlice { expected, actual } => HexError::InvalidStringLengthSlice { expected, actual },
                prefix_hex::Error::OddLength => HexError::OddLength,
            },
        ),
    }
}

/// Relies on `prefix_hex::encode` for byte vectors: `0x`, then two
/// lower-case hexadecimal digits for each byte, in order. Never panics.
#[verifier::external_body]
fn encode_prefix_hex(bytes: &Vec<u8>) -> (r: String)
    ensures
        r@ == hex_encoded(bytes@),
{
    prefix_hex::encode(bytes)
}

/// Reads one slice element.
fn slice_index<'a>(s: &'a [u8], i: usize) -> (r: &'a u8)
    requires
        i < s@.len(),
    ensures
        *r == s@[i as int],
{
    vstd::slice::slice_index_get(s, i)
}

/// Recombines four little-endian bytes into the slot index they encode.
fn u32_from_le_bytes(b0: u8, b1: u8, b2: u8, b3: u8) -> (r: u32)
    ensures
        slot_bytes(r) == seq![b0, b1, b2, b3],
{
    let r = (b0 as u32) | ((b1 as u32) << 8) | ((b2 as u32) << 16) | ((b3 as u32) << 24);
    proof {
        assert((r >> 0u32) as u8 == b0 && (r >> 8u32) as u8 == b1 && (r >> 16u32) as u8 == b2 && (
        r >> 24u32) as u8 == b3) by (bit_vector)
            requires
                r == (b0 as u32) | ((b1 as u32) << 8) | ((b2 as u32) << 16) | ((b3 as u32) << 24),
        ;
        assert(slot_bytes(r) =~= seq![b0, b1, b2, b3]);
    }
    r
}

} // verus!
