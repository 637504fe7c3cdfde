use blind_watermark::bits::{bits_to_bytes, bytes_to_bits, get_wm_len};

#[test]
fn bytes_split_least_significant_bit_first() {
    assert_eq!(
        bytes_to_bits(&[0b0000_0101, 0x80]),
        vec![
            true, false, true, false, false, false, false, false, false, false, false, false,
            false, false, false, true
        ]
    );
    assert_eq!(bytes_to_bits(&[]), Vec::<bool>::new());
}

#[test]
fn bits_pack_least_significant_bit_first() {
    assert_eq!(bits_to_bytes(&vec![true, false, true, false, false, false, false, false]), vec![5]);
    assert_eq!(bits_to_bytes(&vec![false, true, false, true]), vec![0b1010]);
    assert_eq!(bits_to_bytes(&vec![true; 9]), vec![0xff, 0x01]);
    assert_eq!(bits_to_bytes(&vec![]), Vec::<u8>::new());
}

#[test]
fn string_bytes_round_trip() {
    let watermark = "こんにちは●😊";
    let bits = bytes_to_bits(watermark.as_bytes());
    assert_eq!(bits.len(), get_wm_len(watermark.as_bytes()));
    let bytes = bits_to_bytes(&bits);
    assert_eq!(String::from_utf8(bytes).unwrap(), watermark);
}

#[test]
fn wm_len_counts_bits() {
    assert_eq!(get_wm_len(&[1, 2, 3]), 24);
    assert_eq!(get_wm_len(&[]), 0);
}
