use tetra_pd::bits::BitBuffer;
use tetra_pd::fcs::{check_fcs, compute_fcs};

/// PDU type of a BL-DATA that ends in a checksum. The type takes four bits, N(S) one.
const BL_DATA_WITH_FCS: u64 = 0b0101;

#[test]
fn fcs_test() {
    let testvec = "010100100111101011010111110000100110000110001011000011000000000000000011000100000001001100110011000000110010001011000011001000110000001100100011000100110001001100010011000100110101001100100011000000110010001100000011000000110001011001111010000010101011000110101";
    let mut bitbuf = BitBuffer::from_bitstr(testvec);
    bitbuf.seek(5);
    let fcs = compute_fcs(&bitbuf, 5, 5 + 224);
    let extracted_fcs = bitbuf.peek_bits_startoffset(5 + 224, 32).unwrap() as u32;
    assert_eq!(fcs, extracted_fcs);
}

#[test]
fn bldata_with_fcs() {
    let testvec = "010100100111101011010111110000100110000110001011000011000000000000000011000100000001001100110011000000110010001011000011001000110000001100100011000100110001001100010011000100110101001100100011000000110010001100000011000000110001011001111010000010101011000110101";
    let mut bitbuf = BitBuffer::from_bitstr(testvec);
    assert_eq!(
        bitbuf.peek_bits_startoffset(0, 4),
        Some(BL_DATA_WITH_FCS),
        "PDU should have FCS"
    );
    bitbuf.seek(5);
    let fcs_ok = check_fcs(&bitbuf);
    assert!(fcs_ok, "FCS check failed");
}

#[test]
fn fcs_covers_tl_sdu_only_hw_deviation() {
    let testvec = "010100100111101011010111110000100110000110001011000011000000000000000011000100000001001100110011000000110010001011000011001000110000001100100011000100110001001100010011000100110101001100100011000000110010001100000011000000110001011001111010000010101011000110101";
    let mut bytes: Vec<char> = testvec.chars().collect();
    bytes[2] = if bytes[2] == '0' { '1' } else { '0' };
    let corrupted: String = bytes.into_iter().collect();
    let mut bitbuf = BitBuffer::from_bitstr(&corrupted);
    bitbuf.seek(5);
    assert!(
        check_fcs(&bitbuf),
        "FCS must still pass when a header bit is flipped — header is outside the protected window (matches TSC behaviour)"
    );
}

#[test]
fn fcs_covers_tl_sdu_payload_bit_flip_caught() {
    let testvec = "010100100111101011010111110000100110000110001011000011000000000000000011000100000001001100110011000000110010001011000011001000110000001100100011000100110001001100010011000100110101001100100011000000110010001100000011000000110001011001111010000010101011000110101";
    let mut bytes: Vec<char> = testvec.chars().collect();
    bytes[100] = if bytes[100] == '0' { '1' } else { '0' };
    let corrupted: String = bytes.into_iter().collect();
    let mut bitbuf = BitBuffer::from_bitstr(&corrupted);
    bitbuf.seek(5);
    assert!(
        !check_fcs(&bitbuf),
        "FCS must reject a payload bit-flip"
    );
}

#[test]
fn too_few_bits_for_a_checksum() {
    let mut bitbuf = BitBuffer::from_bitstr(&"1".repeat(40));
    bitbuf.seek(9);
    assert!(!check_fcs(&bitbuf));
}

#[test]
fn every_payload_bit_is_protected() {
    let payload = "1011001110001111000010101";
    let fcs = compute_fcs(&BitBuffer::from_bitstr(payload), 0, payload.len());
    let frame = format!("{payload}{fcs:032b}");
    assert!(check_fcs(&BitBuffer::from_bitstr(&frame)));
    for i in 0..payload.len() {
        let mut bits: Vec<char> = frame.chars().collect();
        bits[i] = if bits[i] == '0' { '1' } else { '0' };
        let text: String = bits.into_iter().collect();
        assert!(!check_fcs(&BitBuffer::from_bitstr(&text)), "bit {i}");
    }
}

#[test]
fn checksum_without_a_payload_is_rejected() {
    assert!(!check_fcs(&BitBuffer::from_bitstr(&"0".repeat(32))));
    let empty = compute_fcs(&BitBuffer::from_bitstr(""), 0, 0);
    assert!(!check_fcs(&BitBuffer::from_bitstr(&format!("{empty:032b}"))));
    let one = compute_fcs(&BitBuffer::from_bitstr("1"), 0, 1);
    assert!(check_fcs(&BitBuffer::from_bitstr(&format!("1{one:032b}"))));
}

#[test]
fn bursts_change_the_checksum() {
    let payload: Vec<bool> = (0u32..80).map(|i| i * i % 7 < 3).collect();
    let fcs = compute_fcs(&BitBuffer::from_bits(payload.clone()), 0, 80);
    for len in 1..=32usize {
        for first in [0, 17, 80 - len] {
            let mut bits = payload.clone();
            for b in bits[first..first + len].iter_mut() {
                *b = !*b;
            }
            let hit = compute_fcs(&BitBuffer::from_bits(bits), 0, 80);
            assert_ne!(hit, fcs, "burst of {len} at {first}");
        }
    }
}

#[test]
fn checksum_looks_at_its_range_alone() {
    let mut a = BitBuffer::from_bitstr("0000101100110000");
    let b = BitBuffer::from_bitstr("1111101100111111");
    a.seek(9);
    assert_eq!(compute_fcs(&a, 4, 12), compute_fcs(&b, 4, 12));
    assert_eq!(compute_fcs(&a, 3, 3), compute_fcs(&b, 7, 7));
}
