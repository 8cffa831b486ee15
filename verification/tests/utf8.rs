use output_gateway::utf8::is_valid_utf8;

#[test]
fn ascii_is_valid() {
    assert!(is_valid_utf8(b""));
    assert!(is_valid_utf8(b"hello"));
    assert!(is_valid_utf8(&[0x00, 0x7F]));
}

#[test]
fn two_byte_sequences() {
    assert!(is_valid_utf8(&[0xC2, 0x80])); // U+0080, shortest two-byte form
    assert!(is_valid_utf8(&[0xDF, 0xBF])); // U+07FF, longest two-byte form
    assert!(!is_valid_utf8(&[0xC2])); // truncated
    assert!(!is_valid_utf8(&[0xC2, 0x40])); // continuation out of range
    assert!(!is_valid_utf8(&[0xC0, 0x80])); // overlong lead
    assert!(!is_valid_utf8(&[0xC1, 0xBF])); // overlong lead
}

#[test]
fn three_byte_sequences() {
    assert!(is_valid_utf8(&[0xE0, 0xA0, 0x80])); // U+0800
    assert!(is_valid_utf8(&[0xE2, 0x82, 0xAC])); // U+20AC
    assert!(is_valid_utf8(&[0xED, 0x9F, 0xBF])); // U+D7FF, below surrogates
    assert!(is_valid_utf8(&[0xEE, 0x80, 0x80])); // U+E000, above surrogates
    assert!(!is_valid_utf8(&[0xE0, 0x9F, 0xBF])); // overlong three-byte form
    assert!(!is_valid_utf8(&[0xED, 0xA0, 0x80])); // surrogate
    assert!(!is_valid_utf8(&[0xE2, 0x82])); // truncated
}

#[test]
fn four_byte_sequences() {
    assert!(is_valid_utf8(&[0xF0, 0x90, 0x80, 0x80])); // U+10000
    assert!(is_valid_utf8(&[0xF0, 0x9F, 0x98, 0x80])); // U+1F600
    assert!(is_valid_utf8(&[0xF4, 0x8F, 0xBF, 0xBF])); // U+10FFFF, the last code point
    assert!(!is_valid_utf8(&[0xF0, 0x80, 0x80, 0x80])); // overlong four-byte form
    assert!(!is_valid_utf8(&[0xF4, 0x90, 0x80, 0x80])); // past U+10FFFF
    assert!(!is_valid_utf8(&[0xF5, 0x80, 0x80, 0x80])); // lead out of range
    assert!(!is_valid_utf8(&[0xF0, 0x9F, 0x98])); // truncated
}

#[test]
fn stray_continuation_bytes() {
    assert!(!is_valid_utf8(&[0x80]));
    assert!(!is_valid_utf8(&[0xBF]));
    assert!(!is_valid_utf8(&[b'a', 0x80, b'b']));
}

#[test]
fn agrees_with_std_on_short_inputs() {
    for b0 in 0..=255u8 {
        let buf = [b0];
        assert_eq!(is_valid_utf8(&buf), std::str::from_utf8(&buf).is_ok());
    }
    for b0 in 0..=255u8 {
        for b1 in 0..=255u8 {
            let buf = [b0, b1];
            assert_eq!(is_valid_utf8(&buf), std::str::from_utf8(&buf).is_ok());
        }
    }
}

#[test]
fn agrees_with_std_on_boundary_triples() {
    let samples = [0x7Fu8, 0x80, 0x8F, 0x90, 0x9F, 0xA0, 0xBF, 0xC0];
    for b0 in 0xE0..=0xEFu8 {
        for b1 in 0..=255u8 {
            for b2 in samples {
                let buf = [b0, b1, b2];
                assert_eq!(is_valid_utf8(&buf), std::str::from_utf8(&buf).is_ok());
            }
        }
    }
}

#[test]
fn agrees_with_std_on_boundary_quadruples() {
    let samples = [0x7Fu8, 0x80, 0x8F, 0x90, 0x9F, 0xA0, 0xBF, 0xC0];
    for b0 in 0xF0..=0xF4u8 {
        for b1 in 0..=255u8 {
            for b2 in samples {
                for b3 in samples {
                    let buf = [b0, b1, b2, b3];
                    assert_eq!(is_valid_utf8(&buf), std::str::from_utf8(&buf).is_ok());
                }
            }
        }
    }
}
