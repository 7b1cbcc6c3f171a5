use aspmatch::{
    decode_binary, decode_text, ipmatch, ipmatch_text, iprecord, iprecord_text, ASPMatchError,
    IPMatch, IPRecord,
};

fn dummy_iprecord() -> IPRecord {
    let ndesc = 2;
    IPRecord {
        x: 42.0f32.to_bits(),
        y: 43.0f32.to_bits(),
        xi: 42,
        yi: 43,
        orientation: 52.0f32.to_bits(),
        scale: 53.0f32.to_bits(),
        interest: 54.0f32.to_bits(),
        polarity: 3,
        octave: 62,
        scale_lvl: 63,
        desc: vec![44.0f32.to_bits(); ndesc as usize],
    }
}

fn dummy_ipmatch() -> IPMatch {
    IPMatch {
        image_1: vec![dummy_iprecord()],
        image_2: vec![dummy_iprecord(), dummy_iprecord()],
    }
}

fn varied_iprecord(seed: u32, ndesc: usize) -> IPRecord {
    let base = seed as f32 * 0.37 - 11.5;
    IPRecord {
        x: (base * 1.5).to_bits(),
        y: (-base / 3.0).to_bits(),
        xi: -(seed as i32) * 7,
        yi: seed as i32 * 1001,
        orientation: (base * 0.001).to_bits(),
        scale: (base * 1.0e6).to_bits(),
        interest: 0.1f32.to_bits(),
        polarity: (seed % 256) as u8,
        octave: seed.wrapping_mul(2654435761),
        scale_lvl: seed,
        desc: (0..ndesc)
            .map(|k| (base + k as f32 * 0.25).to_bits())
            .collect(),
    }
}

#[test]
fn test_iprecord() {
    let expected = dummy_iprecord();
    let input: Vec<u8> = expected.as_le_bytes();
    let (i, iprecord) = iprecord(&input).unwrap();
    assert!(i.is_empty());
    assert_eq!(iprecord, expected);
}

#[test]
fn test_iprecord_text() {
    let expected = dummy_iprecord();
    let input = expected.as_text();
    let (i, iprecord) = iprecord_text(&input).unwrap();
    assert!(i.is_empty());
    assert_eq!(iprecord, expected);
}

#[test]
fn test_ipmatch() {
    let expected = dummy_ipmatch();
    let input: Vec<u8> = expected.as_le_bytes();
    let (i, ipmatch) = ipmatch(&input).unwrap();
    assert!(i.is_empty());
    assert_eq!(ipmatch, expected);
}

#[test]
fn test_ipmatch_text() {
    let expected = dummy_ipmatch();
    let input = expected.as_text();
    let (i, ipmatch) = ipmatch_text(&input).unwrap();
    assert!(i.is_empty());
    assert_eq!(ipmatch, expected);
}

#[test]
fn default_record_is_all_zero_bytes() {
    let record = IPRecord::default();
    let expected = vec![0u8; 1 * 8 + 9 * 4 + 1];
    assert_eq!(record.as_le_bytes(), expected);
    let (rest, parsed) = iprecord(&expected).unwrap();
    assert!(rest.is_empty());
    assert_eq!(parsed, record);
}

#[test]
fn default_match_is_empty() {
    let m = IPMatch::default();
    assert!(m.image_1.is_empty());
    assert!(m.image_2.is_empty());
}

#[test]
fn record_binary_layout_is_exact() {
    let bytes = dummy_iprecord().as_le_bytes();
    let mut expected: Vec<u8> = Vec::new();
    expected.extend_from_slice(&[0x00, 0x00, 0x28, 0x42]); // 42.0
    expected.extend_from_slice(&[0x00, 0x00, 0x2c, 0x42]); // 43.0
    expected.extend_from_slice(&[42, 0, 0, 0]);
    expected.extend_from_slice(&[43, 0, 0, 0]);
    expected.extend_from_slice(&[0x00, 0x00, 0x50, 0x42]); // 52.0
    expected.extend_from_slice(&[0x00, 0x00, 0x54, 0x42]); // 53.0
    expected.extend_from_slice(&[0x00, 0x00, 0x58, 0x42]); // 54.0
    expected.push(3);
    expected.extend_from_slice(&[62, 0, 0, 0]);
    expected.extend_from_slice(&[63, 0, 0, 0]);
    expected.extend_from_slice(&[2, 0, 0, 0, 0, 0, 0, 0]);
    expected.extend_from_slice(&[0x00, 0x00, 0x30, 0x42]); // 44.0
    expected.extend_from_slice(&[0x00, 0x00, 0x30, 0x42]);
    assert_eq!(bytes, expected);
    assert_eq!(bytes.len(), 45 + 4 * 2);
}

#[test]
fn record_binary_agrees_with_std_le_bytes() {
    let r = varied_iprecord(77, 3);
    let mut expected: Vec<u8> = Vec::new();
    expected.extend_from_slice(&f32::from_bits(r.x).to_le_bytes());
    expected.extend_from_slice(&f32::from_bits(r.y).to_le_bytes());
    expected.extend_from_slice(&r.xi.to_le_bytes());
    expected.extend_from_slice(&r.yi.to_le_bytes());
    expected.extend_from_slice(&f32::from_bits(r.orientation).to_le_bytes());
    expected.extend_from_slice(&f32::from_bits(r.scale).to_le_bytes());
    expected.extend_from_slice(&f32::from_bits(r.interest).to_le_bytes());
    expected.extend_from_slice(&r.polarity.to_le_bytes());
    expected.extend_from_slice(&r.octave.to_le_bytes());
    expected.extend_from_slice(&r.scale_lvl.to_le_bytes());
    expected.extend_from_slice(&(r.desc.len() as u64).to_le_bytes());
    for d in r.desc.iter() {
        expected.extend_from_slice(&f32::from_bits(*d).to_le_bytes());
    }
    assert_eq!(r.as_le_bytes(), expected);
}

#[test]
fn negative_integers_are_twos_complement() {
    let mut r = IPRecord::default();
    r.xi = -1;
    r.yi = i32::MIN;
    let bytes = r.as_le_bytes();
    assert_eq!(&bytes[8..12], &[0xff, 0xff, 0xff, 0xff]);
    assert_eq!(&bytes[12..16], &[0x00, 0x00, 0x00, 0x80]);
    let (rest, parsed) = iprecord(&bytes).unwrap();
    assert!(rest.is_empty());
    assert_eq!(parsed.xi, -1);
    assert_eq!(parsed.yi, i32::MIN);
}

#[test]
fn record_text_is_exact() {
    assert_eq!(
        dummy_iprecord().as_text(),
        "42 43 42 43 52 53 54 3 62 63 2 44 44"
    );
}

#[test]
fn record_text_decodes_to_the_record() {
    let (rest, r) = iprecord_text("42 43 42 43 52 53 54 3 62 63 2 44 44").unwrap();
    assert!(rest.is_empty());
    assert_eq!(r, dummy_iprecord());
    assert_eq!(f32::from_bits(r.x), 42.0);
    assert_eq!(f32::from_bits(r.desc[1]), 44.0);
}

#[test]
fn record_text_without_descriptor_keeps_the_space() {
    let mut r = dummy_iprecord();
    r.desc = Vec::new();
    let text = r.as_text();
    assert_eq!(text, "42 43 42 43 52 53 54 3 62 63 0 ");
    let (rest, parsed) = iprecord_text(&text).unwrap();
    assert!(rest.is_empty());
    assert_eq!(parsed, r);
}

#[test]
fn record_text_writes_fractions_and_signs() {
    let r = IPRecord {
        x: 0.5f32.to_bits(),
        y: (-1.25f32).to_bits(),
        xi: -7,
        yi: i32::MIN,
        orientation: 0.1f32.to_bits(),
        scale: 1.0e10f32.to_bits(),
        interest: (-0.0f32).to_bits(),
        polarity: 255,
        octave: u32::MAX,
        scale_lvl: 10,
        desc: vec![3.5f32.to_bits()],
    };
    let text = r.as_text();
    assert_eq!(
        text,
        "0.5 -1.25 -7 -2147483648 0.1 10000000000 -0 255 4294967295 10 1 3.5"
    );
    let (rest, parsed) = iprecord_text(&text).unwrap();
    assert!(rest.is_empty());
    assert_eq!(parsed, r);
}

#[test]
fn match_header_is_written_first() {
    let m = dummy_ipmatch();
    let text = m.as_text();
    assert_eq!(text.lines().next().unwrap(), "1 2");
    let bytes = m.as_le_bytes();
    assert_eq!(&bytes[0..8], &[1, 0, 0, 0, 0, 0, 0, 0]);
    assert_eq!(&bytes[8..16], &[2, 0, 0, 0, 0, 0, 0, 0]);
    assert_eq!(bytes.len(), 16 + 3 * 53);
}

#[test]
fn match_text_is_exact() {
    let line = "42 43 42 43 52 53 54 3 62 63 2 44 44";
    assert_eq!(
        dummy_ipmatch().as_text(),
        format!("1 2\n{}\n{}\n{}", line, line, line)
    );
}

#[test]
fn empty_match_encodings() {
    let m = IPMatch::default();
    assert_eq!(m.as_le_bytes(), vec![0u8; 16]);
    assert_eq!(m.as_text(), "0 0\n");
    let (rest, parsed) = ipmatch(&[0u8; 16]).unwrap();
    assert!(rest.is_empty());
    assert_eq!(parsed, m);
    let (rest, parsed) = ipmatch_text("0 0\n").unwrap();
    assert!(rest.is_empty());
    assert_eq!(parsed, m);
}

#[test]
fn binary_roundtrip_of_varied_matches() {
    for n1 in 0..4usize {
        for n2 in 0..4usize {
            let m = IPMatch {
                image_1: (0..n1).map(|k| varied_iprecord(k as u32, k)).collect(),
                image_2: (0..n2)
                    .map(|k| varied_iprecord(100 + k as u32, 3 - k))
                    .collect(),
            };
            let bytes = m.as_le_bytes();
            assert_eq!(decode_binary(&bytes), Ok(m.clone()));
            let (rest, parsed) = ipmatch(&bytes).unwrap();
            assert!(rest.is_empty());
            assert_eq!(parsed, m);
        }
    }
}

#[test]
fn text_roundtrip_of_varied_matches() {
    for n1 in 0..4usize {
        for n2 in 0..4usize {
            let m = IPMatch {
                image_1: (0..n1).map(|k| varied_iprecord(k as u32, k)).collect(),
                image_2: (0..n2)
                    .map(|k| varied_iprecord(100 + k as u32, 3 - k))
                    .collect(),
            };
            let text = m.as_text();
            assert_eq!(decode_text(&text), Ok(m.clone()));
            let (rest, parsed) = ipmatch_text(&text).unwrap();
            assert!(rest.is_empty());
            assert_eq!(parsed, m);
        }
    }
}

#[test]
fn encoding_twice_gives_the_same_output() {
    let m = IPMatch {
        image_1: vec![varied_iprecord(5, 4)],
        image_2: vec![varied_iprecord(6, 0), varied_iprecord(7, 2)],
    };
    assert_eq!(m.as_le_bytes(), m.as_le_bytes());
    assert_eq!(m.as_text(), m.as_text());
    assert_eq!(m.clone().as_le_bytes(), m.as_le_bytes());
    assert_eq!(m.clone().as_text(), m.as_text());
}

#[test]
fn trailing_bytes_are_handed_back() {
    let mut bytes = dummy_ipmatch().as_le_bytes();
    bytes.extend_from_slice(&[9, 8, 7]);
    let (rest, parsed) = ipmatch(&bytes).unwrap();
    assert_eq!(rest, &[9, 8, 7]);
    assert_eq!(parsed, dummy_ipmatch());
    assert_eq!(decode_binary(&bytes), Ok(dummy_ipmatch()));

    let mut record = dummy_iprecord().as_le_bytes();
    record.push(1);
    let (rest, parsed) = iprecord(&record).unwrap();
    assert_eq!(rest, &[1]);
    assert_eq!(parsed, dummy_iprecord());
}

#[test]
fn implausible_header_is_rejected() {
    // 16 bytes of header that declare 1 + 0 records, and nothing after them
    let mut bytes = vec![0u8; 16];
    bytes[0] = 1;
    assert_eq!(
        ipmatch(&bytes).unwrap_err(),
        ASPMatchError::HeaderSizeImplausible
    );
    // counts whose sum does not fit in 64 bits
    let mut bytes = vec![0xffu8; 16];
    bytes.extend_from_slice(&[0u8; 90]);
    assert_eq!(
        decode_binary(&bytes),
        Err(ASPMatchError::HeaderSizeImplausible)
    );
    // two records declared, room for one
    let mut bytes = vec![0u8; 16 + 45 + 44];
    bytes[0] = 1;
    bytes[8] = 1;
    assert_eq!(
        decode_binary(&bytes),
        Err(ASPMatchError::HeaderSizeImplausible)
    );
    // the same header with room for both records is accepted
    let mut bytes = vec![0u8; 16 + 45 + 45];
    bytes[0] = 1;
    bytes[8] = 1;
    assert!(decode_binary(&bytes).is_ok());
}

#[test]
fn truncated_binary_is_rejected() {
    assert_eq!(decode_binary(&[]), Err(ASPMatchError::TruncatedInput));
    assert_eq!(
        decode_binary(&[0u8; 15]),
        Err(ASPMatchError::TruncatedInput)
    );
    assert_eq!(
        iprecord(&[0u8; 44]).unwrap_err(),
        ASPMatchError::TruncatedInput
    );
    // a record that declares two descriptor entries and holds one
    let whole = dummy_iprecord().as_le_bytes();
    assert_eq!(
        iprecord(&whole[..whole.len() - 4]).unwrap_err(),
        ASPMatchError::TruncatedInput
    );
    assert_eq!(
        iprecord(&whole[..whole.len() - 1]).unwrap_err(),
        ASPMatchError::TruncatedInput
    );
    // a descriptor count far beyond the input
    let mut huge = vec![0u8; 45];
    for b in huge[37..45].iter_mut() {
        *b = 0xff;
    }
    assert_eq!(iprecord(&huge).unwrap_err(), ASPMatchError::TruncatedInput);
}

#[test]
fn every_proper_prefix_of_a_match_is_rejected() {
    let bytes = dummy_ipmatch().as_le_bytes();
    for k in 0..bytes.len() {
        let r = decode_binary(&bytes[..k]);
        if k < 16 {
            assert_eq!(r, Err(ASPMatchError::TruncatedInput));
        } else if (k - 16) / 45 < 3 {
            assert_eq!(r, Err(ASPMatchError::HeaderSizeImplausible));
        } else {
            assert_eq!(r, Err(ASPMatchError::TruncatedInput));
        }
    }
}

#[test]
fn text_descriptor_count_mismatch_is_rejected() {
    assert_eq!(
        iprecord_text("42 43 42 43 52 53 54 3 62 63 3 44 44").unwrap_err(),
        ASPMatchError::SchemaMismatch
    );
    assert_eq!(
        iprecord_text("42 43 42 43 52 53 54 3 62 63 1 44 44").unwrap_err(),
        ASPMatchError::SchemaMismatch
    );
    assert_eq!(
        iprecord_text("42 43 42 43 52 53 54 3 62 63 1 ").unwrap_err(),
        ASPMatchError::SchemaMismatch
    );
    assert_eq!(
        iprecord_text("42 43 42 43 52 53 54 3 62 63 2 44 x").unwrap_err(),
        ASPMatchError::SchemaMismatch
    );
}

#[test]
fn text_record_count_mismatch_is_rejected() {
    let line = "42 43 42 43 52 53 54 3 62 63 2 44 44";
    let two = format!("1 2\n{}\n{}", line, line);
    assert_eq!(
        ipmatch_text(&two).unwrap_err(),
        ASPMatchError::SchemaMismatch
    );
    let four = format!("1 2\n{}\n{}\n{}\n{}", line, line, line, line);
    assert_eq!(decode_text(&four), Err(ASPMatchError::SchemaMismatch));
    assert_eq!(decode_text("1 0\n"), Err(ASPMatchError::SchemaMismatch));
    // a line whose own count is wrong ends the list before it
    let bad = format!("1 1\n{}\n42 43 42 43 52 53 54 3 62 63 5 44 44", line);
    assert_eq!(decode_text(&bad), Err(ASPMatchError::SchemaMismatch));
    // counts whose sum does not fit in 64 bits match no list
    let big = format!("18446744073709551615 1\n{}", line);
    assert_eq!(decode_text(&big), Err(ASPMatchError::SchemaMismatch));
}

#[test]
fn malformed_text_is_rejected() {
    assert_eq!(
        iprecord_text("").unwrap_err(),
        ASPMatchError::MalformedText
    );
    assert_eq!(
        iprecord_text("abc").unwrap_err(),
        ASPMatchError::MalformedText
    );
    // no blank after the count
    assert_eq!(
        iprecord_text("42 43 42 43 52 53 54 3 62 63 0").unwrap_err(),
        ASPMatchError::MalformedText
    );
    // a float where an integer is due
    assert_eq!(
        iprecord_text("42 43 42.5 43 52 53 54 3 62 63 0 ").unwrap_err(),
        ASPMatchError::MalformedText
    );
    // polarity beyond 8 bits
    assert_eq!(
        iprecord_text("42 43 42 43 52 53 54 256 62 63 0 ").unwrap_err(),
        ASPMatchError::MalformedText
    );
    // octave beyond 32 bits
    assert_eq!(
        iprecord_text("42 43 42 43 52 53 54 3 4294967296 63 0 ").unwrap_err(),
        ASPMatchError::MalformedText
    );
    // an exponent mark without digits
    assert_eq!(
        iprecord_text("42e 43 42 43 52 53 54 3 62 63 0 ").unwrap_err(),
        ASPMatchError::MalformedText
    );
    assert_eq!(decode_text(""), Err(ASPMatchError::MalformedText));
    assert_eq!(decode_text("1"), Err(ASPMatchError::MalformedText));
    assert_eq!(decode_text("1 2"), Err(ASPMatchError::MalformedText));
    assert_eq!(decode_text("1\n2\n"), Err(ASPMatchError::MalformedText));
    assert_eq!(decode_text("-1 2\n"), Err(ASPMatchError::MalformedText));
}

#[test]
fn broken_number_fails_the_whole_match() {
    let line = "42 43 42 43 52 53 54 3 62 63 2 44 44";
    // the second line begins a float that breaks off after its exponent mark
    let text = format!("1 0\n{}\n4e 43 42 43 52 53 54 3 62 63 0 ", line);
    assert_eq!(decode_text(&text), Err(ASPMatchError::MalformedText));
    // a second line that is merely no record ends the list before it
    let text = format!("1 0\n{}\nrest", line);
    let (rest, m) = ipmatch_text(&text).unwrap();
    assert_eq!(rest, "\nrest");
    assert_eq!(m.image_1, vec![dummy_iprecord()]);
    assert!(m.image_2.is_empty());
}

#[test]
fn text_accepts_tabs_signs_and_carriage_returns() {
    let text = "2 \t 0\r\n+1.5\t-2 +3 -4 5e1 .5 7. 0 1 2 1   9\r\n1 2 3 4 5 6 7 8 9 10 0 \n";
    let (rest, m) = ipmatch_text(text).unwrap();
    assert_eq!(rest, "\n");
    assert_eq!(m.image_1.len(), 2);
    assert!(m.image_2.is_empty());
    let r = &m.image_1[0];
    assert_eq!(f32::from_bits(r.x), 1.5);
    assert_eq!(f32::from_bits(r.y), -2.0);
    assert_eq!(r.xi, 3);
    assert_eq!(r.yi, -4);
    assert_eq!(f32::from_bits(r.orientation), 50.0);
    assert_eq!(f32::from_bits(r.scale), 0.5);
    assert_eq!(f32::from_bits(r.interest), 7.0);
    assert_eq!(r.polarity, 0);
    assert_eq!(r.octave, 1);
    assert_eq!(r.scale_lvl, 2);
    assert_eq!(r.desc, vec![9.0f32.to_bits()]);
    assert_eq!(m.image_1[1].desc.len(), 0);
}

#[test]
fn text_splits_the_lines_at_the_first_count() {
    let a = varied_iprecord(1, 1);
    let b = varied_iprecord(2, 2);
    let c = varied_iprecord(3, 0);
    let m = IPMatch {
        image_1: vec![a.clone(), b.clone()],
        image_2: vec![c.clone()],
    };
    let text = m.as_text();
    assert!(text.starts_with("2 1\n"));
    let moved = text.replacen("2 1\n", "1 2\n", 1);
    let parsed = decode_text(&moved).unwrap();
    assert_eq!(parsed.image_1, vec![a]);
    assert_eq!(parsed.image_2, vec![b, c]);
}

#[test]
fn special_floats_in_text() {
    let mut r = IPRecord::default();
    r.x = f32::INFINITY.to_bits();
    r.y = f32::NAN.to_bits();
    r.scale = f32::MAX.to_bits();
    r.interest = f32::MIN_POSITIVE.to_bits();
    let text = r.as_text();
    assert!(text.starts_with("inf NaN 0 0 0 340282350000000000000000000000000000000 "));
    let (rest, parsed) = iprecord_text(&text).unwrap();
    assert!(rest.is_empty());
    assert_eq!(parsed, r);
}

#[test]
fn join_puts_the_separator_between_parts() {
    let parts = vec!["a".to_string(), "bc".to_string(), "".to_string(), "d".to_string()];
    assert_eq!(aspmatch::join(&parts, " "), "a bc  d");
    assert_eq!(aspmatch::join(&parts, ", "), "a, bc, , d");
    assert_eq!(aspmatch::join(&parts[..1].to_vec(), "\n"), "a");
    assert_eq!(aspmatch::join(&Vec::new(), "\n"), "");
}

#[test]
fn decimal_texts_are_exact() {
    assert_eq!(aspmatch::decimal_text(0), "0");
    assert_eq!(aspmatch::decimal_text(9), "9");
    assert_eq!(aspmatch::decimal_text(10), "10");
    assert_eq!(aspmatch::decimal_text(1234567890), "1234567890");
    assert_eq!(aspmatch::decimal_text(u64::MAX), "18446744073709551615");
    assert_eq!(aspmatch::signed_decimal_text(0), "0");
    assert_eq!(aspmatch::signed_decimal_text(-1), "-1");
    assert_eq!(aspmatch::signed_decimal_text(i32::MAX), "2147483647");
    assert_eq!(aspmatch::signed_decimal_text(i32::MIN), "-2147483648");
}

#[test]
fn descriptor_rule_compares_with_the_declared_count() {
    assert_eq!(aspmatch::checked_descriptor(0, vec![]), Ok(vec![]));
    assert_eq!(aspmatch::checked_descriptor(2, vec![7, 8]), Ok(vec![7, 8]));
    assert_eq!(
        aspmatch::checked_descriptor(3, vec![7, 8]),
        Err(ASPMatchError::SchemaMismatch)
    );
    assert_eq!(
        aspmatch::checked_descriptor(1, vec![7, 8]),
        Err(ASPMatchError::SchemaMismatch)
    );
    assert_eq!(
        aspmatch::checked_descriptor(u64::MAX, vec![]),
        Err(ASPMatchError::SchemaMismatch)
    );
}

#[test]
fn record_rule_splits_at_the_first_count() {
    let a = varied_iprecord(1, 1);
    let b = varied_iprecord(2, 0);
    let c = varied_iprecord(3, 2);
    let all = vec![a.clone(), b.clone(), c.clone()];
    let m = aspmatch::split_records(1, 2, all.clone()).unwrap();
    assert_eq!(m.image_1, vec![a.clone()]);
    assert_eq!(m.image_2, vec![b.clone(), c.clone()]);
    let m = aspmatch::split_records(3, 0, all.clone()).unwrap();
    assert_eq!(m.image_1, all);
    assert!(m.image_2.is_empty());
    let m = aspmatch::split_records(0, 3, all.clone()).unwrap();
    assert!(m.image_1.is_empty());
    assert_eq!(m.image_2, all);
    assert_eq!(
        aspmatch::split_records(2, 2, all.clone()),
        Err(ASPMatchError::SchemaMismatch)
    );
    assert_eq!(
        aspmatch::split_records(4, 0, all.clone()),
        Err(ASPMatchError::SchemaMismatch)
    );
    assert_eq!(
        aspmatch::split_records(1, 1, all.clone()),
        Err(ASPMatchError::SchemaMismatch)
    );
    assert_eq!(
        aspmatch::split_records(u64::MAX, 4, all),
        Err(ASPMatchError::SchemaMismatch)
    );
    assert_eq!(
        aspmatch::split_records(0, 0, Vec::new()),
        Ok(IPMatch::default())
    );
}

#[test]
fn text_with_one_image_empty_roundtrips() {
    let r = varied_iprecord(9, 2);
    let only_second = IPMatch {
        image_1: vec![],
        image_2: vec![r.clone(), r.clone()],
    };
    let text = only_second.as_text();
    assert!(text.starts_with("0 2\n"));
    assert!(!text.contains("\n\n"));
    assert!(!text.ends_with('\n'));
    assert_eq!(decode_text(&text), Ok(only_second));
    let only_first = IPMatch {
        image_1: vec![r.clone()],
        image_2: vec![],
    };
    let text = only_first.as_text();
    assert!(text.starts_with("1 0\n"));
    assert!(!text.ends_with('\n'));
    assert_eq!(decode_text(&text), Ok(only_first));
}

#[test]
fn floats_that_do_not_survive_text() {
    // negative infinity is written as "-inf", which the reader of floats
    // does not take
    let mut r = IPRecord::default();
    r.x = f32::NEG_INFINITY.to_bits();
    let text = r.as_text();
    assert!(text.starts_with("-inf "));
    assert_eq!(
        iprecord_text(&text).unwrap_err(),
        ASPMatchError::MalformedText
    );
    // a NaN with a payload is written as "NaN" and read as the plain NaN
    let mut r = IPRecord::default();
    r.x = 0x7fc0_0001;
    let (_, parsed) = iprecord_text(&r.as_text()).unwrap();
    assert_eq!(parsed.x, f32::NAN.to_bits());
    // binary keeps both
    r.y = f32::NEG_INFINITY.to_bits();
    let (_, parsed) = iprecord(&r.as_le_bytes()).unwrap();
    assert_eq!(parsed, r);
}

fn line_with(xi: &str, polarity: &str, octave: &str, count_and_desc: &str) -> String {
    format!("1 2 {} 4 5 6 7 {} {} 10 {}", xi, polarity, octave, count_and_desc)
}

#[test]
fn integer_fields_hold_their_whole_range_and_no_more() {
    let (_, r) = iprecord_text(&line_with("-2147483648", "255", "4294967295", "0 ")).unwrap();
    assert_eq!(r.xi, i32::MIN);
    assert_eq!(r.polarity, 255);
    assert_eq!(r.octave, u32::MAX);
    let (_, r) = iprecord_text(&line_with("2147483647", "0", "0", "0 ")).unwrap();
    assert_eq!(r.xi, i32::MAX);
    let (_, r) = iprecord_text(&line_with("+007", "007", "0042", "0 ")).unwrap();
    assert_eq!(r.xi, 7);
    assert_eq!(r.polarity, 7);
    assert_eq!(r.octave, 42);
    let (_, r) = iprecord_text(&line_with("-0", "0", "0", "00 ")).unwrap();
    assert_eq!(r.xi, 0);
    for bad in ["-2147483649", "2147483648", "-", "+", "+-5", "--5", "x"] {
        assert_eq!(
            iprecord_text(&line_with(bad, "0", "0", "0 ")).unwrap_err(),
            ASPMatchError::MalformedText
        );
    }
    for bad in ["256", "-1", "+1", "1000"] {
        assert_eq!(
            iprecord_text(&line_with("0", bad, "0", "0 ")).unwrap_err(),
            ASPMatchError::MalformedText
        );
    }
    // a count beyond 64 bits is no number; one within them is a mismatch
    assert_eq!(
        iprecord_text(&line_with("0", "0", "0", "18446744073709551616 ")).unwrap_err(),
        ASPMatchError::MalformedText
    );
    assert_eq!(
        iprecord_text(&line_with("0", "0", "0", "18446744073709551615 ")).unwrap_err(),
        ASPMatchError::SchemaMismatch
    );
}

#[test]
fn text_after_a_record_is_handed_back() {
    let (rest, r) = iprecord_text("1 2 3 4 5 6 7 8 9 10 1 11 \nmore").unwrap();
    assert_eq!(rest, " \nmore");
    assert_eq!(r.desc, vec![11.0f32.to_bits()]);
    let (rest, r) = iprecord_text("1 2 3 4 5 6 7 8 9 10 0 \tz").unwrap();
    assert_eq!(rest, "z");
    assert!(r.desc.is_empty());
}
