use termstorage::term::{decode, encode, DecodeError, Term};

fn sample_terms() -> Vec<Term> {
    vec![
        Term::Bool(false),
        Term::Bool(true),
        Term::Number(0.0f64.to_bits()),
        Term::Number(42.0f64.to_bits()),
        Term::Number((-1.5f64).to_bits()),
        Term::String(String::new()),
        Term::String("termstorage works".to_string()),
        Term::String("héllo wörld ✓".to_string()),
        Term::Tuple(
            Box::new(Term::Bool(false)),
            Box::new(Term::Bool(true)),
        ),
        Term::Tuple(
            Box::new(Term::Tuple(
                Box::new(Term::Number(1.25f64.to_bits())),
                Box::new(Term::String("inner".to_string())),
            )),
            Box::new(Term::Tuple(
                Box::new(Term::Bool(true)),
                Box::new(Term::Tuple(
                    Box::new(Term::String("deep".to_string())),
                    Box::new(Term::Number(9.75f64.to_bits())),
                )),
            )),
        ),
    ]
}

#[test]
fn roundtrip_all_samples() {
    for term in sample_terms() {
        let bytes = encode(&term);
        let (back, used) = decode(&bytes).expect("round trip must decode");
        assert_eq!(back, term);
        assert_eq!(used, bytes.len());
    }
}

#[test]
fn roundtrip_deep_tuple() {
    let mut term = Term::Bool(true);
    for i in 0..10 {
        term = Term::Tuple(
            Box::new(term),
            Box::new(Term::Number((i as f64).to_bits())),
        );
    }
    let bytes = encode(&term);
    let (back, used) = decode(&bytes).expect("deep tuple must decode");
    assert_eq!(back, term);
    assert_eq!(used, bytes.len());
}

#[test]
fn bool_exact_bytes() {
    assert_eq!(encode(&Term::Bool(false)), vec![20, 0]);
    assert_eq!(encode(&Term::Bool(true)), vec![20, 1]);
}

#[test]
fn number_exact_bytes() {
    let bytes = encode(&Term::Number(42.0f64.to_bits()));
    assert_eq!(bytes, vec![21, 0x40, 0x45, 0, 0, 0, 0, 0, 0]);
}

#[test]
fn string_exact_bytes() {
    let bytes = encode(&Term::String("hi".to_string()));
    assert_eq!(bytes, vec![22, 0, 0, 0, 0, 0, 0, 0, 2, b'h', b'i']);
}

#[test]
fn tuple_exact_bytes() {
    let term = Term::Tuple(
        Box::new(Term::Bool(true)),
        Box::new(Term::Number(42.0f64.to_bits())),
    );
    let bytes = encode(&term);
    assert_eq!(bytes, vec![23, 20, 1, 21, 0x40, 0x45, 0, 0, 0, 0, 0, 0]);
}

#[test]
fn multibyte_string_survives() {
    let term = Term::String("日本語".to_string());
    let bytes = encode(&term);
    // 3 characters, 3 bytes each.
    assert_eq!(bytes[8], 9);
    let (back, _) = decode(&bytes).expect("valid UTF-8 must decode");
    match back {
        Term::String(s) => assert_eq!(s, "日本語"),
        other => panic!("expected a string, got {other:?}"),
    }
}

#[test]
fn every_strict_prefix_is_truncated() {
    for term in sample_terms() {
        let bytes = encode(&term);
        for k in 0..bytes.len() {
            assert_eq!(decode(&bytes[..k]), Err(DecodeError::Truncated));
        }
    }
}

#[test]
fn trailing_bytes_are_ignored() {
    let term = Term::Tuple(
        Box::new(Term::String("pair".to_string())),
        Box::new(Term::Bool(false)),
    );
    let mut bytes = encode(&term);
    let exact = bytes.len();
    bytes.extend_from_slice(&[0xFF, 0xAA, 0x00]);
    let (back, used) = decode(&bytes).expect("trailing bytes must not break decoding");
    assert_eq!(back, term);
    assert_eq!(used, exact);
}

#[test]
fn unknown_tag_is_invalid() {
    assert_eq!(decode(&[0xFF]), Err(DecodeError::InvalidTag));
    assert_eq!(decode(&[19, 0]), Err(DecodeError::InvalidTag));
    assert_eq!(decode(&[24, 0]), Err(DecodeError::InvalidTag));
}

#[test]
fn empty_input_is_truncated() {
    assert_eq!(decode(&[]), Err(DecodeError::Truncated));
}

#[test]
fn invalid_utf8_is_rejected() {
    // A string frame with a correct length whose two bytes are not UTF-8.
    let bytes = vec![22, 0, 0, 0, 0, 0, 0, 0, 2, 0xC3, 0x28];
    assert_eq!(decode(&bytes), Err(DecodeError::InvalidUtf8));
}

#[test]
fn invalid_utf8_single_continuation_byte() {
    let bytes = vec![22, 0, 0, 0, 0, 0, 0, 0, 1, 0x80];
    assert_eq!(decode(&bytes), Err(DecodeError::InvalidUtf8));
}

#[test]
fn bool_payload_nonzero_reads_true() {
    let (back, used) = decode(&[20, 7]).expect("any payload byte is a boolean");
    assert_eq!(back, Term::Bool(true));
    assert_eq!(used, 2);
}

#[test]
fn string_length_larger_than_input_is_truncated() {
    let bytes = vec![22, 0, 0, 0, 0, 0, 0, 0, 50, b'a', b'b'];
    assert_eq!(decode(&bytes), Err(DecodeError::Truncated));
}

#[test]
fn number_bits_roundtrip_through_floats() {
    for value in [0.0f64, -0.0, 1.0, -273.15, f64::MAX, f64::MIN_POSITIVE] {
        let term = Term::Number(value.to_bits());
        let (back, _) = decode(&encode(&term)).expect("numbers must decode");
        match back {
            Term::Number(bits) => assert_eq!(f64::from_bits(bits), value),
            other => panic!("expected a number, got {other:?}"),
        }
    }
}
