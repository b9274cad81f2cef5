use iota_sdk::block_id::{BlockHash, BlockId, HexError, SlotIndex};

fn sample_bytes() -> [u8; 36] {
    let mut b = [0u8; 36];
    for i in 0..36 {
        b[i] = i as u8;
    }
    b
}

#[test]
fn with_slot_index_pairs_hash_and_slot() {
    let id = BlockHash::new([0xab; 32]).with_slot_index(SlotIndex(5));
    assert_eq!(id.slot_index(), SlotIndex(5));
    assert_eq!(id.hash().as_slice(), &[0xab; 32][..]);
}

#[test]
fn pack_layout_is_hash_then_le_slot() {
    let id = BlockHash::new([0x11; 32]).with_slot_index(SlotIndex(0x01020304));
    let packed = id.pack_to_vec();
    assert_eq!(packed.len(), 36);
    assert_eq!(&packed[..32], &[0x11; 32][..]);
    assert_eq!(&packed[32..], &[0x04, 0x03, 0x02, 0x01][..]);
}

#[test]
fn pack_unpack_round_trip() {
    let bytes = sample_bytes();
    let id = BlockId::new(bytes);
    let packed = id.pack_to_vec();
    assert_eq!(packed.as_slice(), &bytes[..]);
    let back = BlockId::unpack(packed.as_slice()).unwrap();
    assert_eq!(back.pack_to_vec(), packed);
    assert_eq!(back.slot_index(), id.slot_index());
}

#[test]
fn accessors_read_the_packed_parts() {
    let bytes = sample_bytes();
    let id = BlockId::new(bytes);
    // The hash is the first 32 packed bytes, the slot index the value the
    // last four encode little-endian.
    assert_eq!(id.hash().as_slice(), &bytes[..32]);
    assert_eq!(id.slot_index(), SlotIndex(u32::from_le_bytes([0x20, 0x21, 0x22, 0x23])));
    let zero = BlockId::new([0u8; 36]);
    assert_eq!(zero.slot_index(), SlotIndex(0));
}

#[test]
fn unpack_rejects_wrong_length() {
    assert!(BlockId::unpack(&[0u8; 35]).is_none());
    assert!(BlockId::unpack(&[0u8; 37]).is_none());
    assert!(BlockId::unpack(&[]).is_none());
    assert!(BlockId::unpack(&[0u8; 36]).is_some());
}

#[test]
fn hex_round_trip() {
    let id = BlockId::new(sample_bytes());
    let s = id.to_hex();
    assert_eq!(s.len(), 74);
    assert!(s.starts_with("0x"));
    assert_eq!(
        s.as_str(),
        "0x000102030405060708090a0b0c0d0e0f101112131415161718191a1b1c1d1e1f20212223"
    );
    let back = BlockId::from_str(s.as_str()).unwrap();
    assert_eq!(back.pack_to_vec(), id.pack_to_vec());
}

#[test]
fn all_zero_string_parses_to_the_zero_id() {
    let s = "0x000000000000000000000000000000000000000000000000000000000000000000000000";
    assert_eq!(s.len(), 74);
    let id = BlockId::from_str(s).unwrap();
    assert_eq!(id.pack_to_vec().as_slice(), &[0u8; 36][..]);
    assert_eq!(id.slot_index(), SlotIndex(0));
    assert_eq!(id.to_hex().as_str(), s);
}

#[test]
fn from_str_accepts_upper_case() {
    let id = BlockId::from_str(
        "0x000102030405060708090A0B0C0D0E0F101112131415161718191A1B1C1D1E1F20212223",
    )
    .unwrap();
    assert_eq!(id.pack_to_vec().as_slice(), &sample_bytes()[..]);
}

#[test]
fn from_str_rejects_bad_prefix() {
    let r = BlockId::from_str(
        "1y000102030405060708090a0b0c0d0e0f101112131415161718191a1b1c1d1e1f20212223",
    );
    assert!(matches!(r, Err(HexError::InvalidPrefix { c0: '1', c1: 'y' })));
}

#[test]
fn from_str_rejects_wrong_length() {
    let r = BlockId::from_str("0x0011");
    assert!(matches!(
        r,
        Err(HexError::InvalidStringLengthSlice { expected: 72, actual: 4 })
    ));
    assert!(matches!(BlockId::from_str(""), Err(HexError::InvalidStringLength)));
}

#[test]
fn from_str_rejects_bad_digit() {
    let mut s = String::from("0x");
    s.push_str(&"0g".repeat(36));
    let r = BlockId::from_str(s.as_str());
    assert!(matches!(r, Err(HexError::InvalidHexCharacter { c: 'g', index: 1 })));
}

#[test]
fn from_str_rejects_non_ascii_without_panicking() {
    // A short multi-byte string: two bytes, one character.
    assert!(BlockId::from_str("\u{e9}").is_err());
    // A correctly sized string with one non-ASCII character in it.
    let mut s = String::from("0x");
    s.push_str(&"0".repeat(71));
    s.push('\u{e9}');
    assert!(BlockId::from_str(s.as_str()).is_err());
}

#[test]
fn slot_index_survives_extremes() {
    for v in [0u32, 1, u32::MAX, 0x8000_0000] {
        let id = BlockHash::new([0; 32]).with_slot_index(SlotIndex(v));
        let packed = id.pack_to_vec();
        let back = BlockId::unpack(packed.as_slice()).unwrap();
        assert_eq!(back.slot_index(), SlotIndex(v));
    }
}
