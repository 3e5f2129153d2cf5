use automerge::leb128::{leb128_size, leb128_u32, leb128_u64};
use automerge::parse::{ErrorKind, Needed, ParseError, ParseResult};
use std::convert::TryFrom;

const NEED_ONE: Needed = Needed::Size(1);

#[test]
fn leb_128_u64() {
    let scenarios: Vec<(&'static [u8], ParseResult<u64>)> = vec![
        (&[0b00000001_u8], Ok((&[], 1))),
        (&[0b10000001_u8], Err(ParseError::Incomplete(NEED_ONE))),
        (&[0b10000001, 0b00000001], Ok((&[], 129))),
        (&[0b00000001, 0b00000011], Ok((&[0b00000011], 1))),
        (
            &[129, 129, 129, 129, 129, 129, 129, 129, 129, 129, 129, 129],
            Err(ParseError::Error(ErrorKind::Leb128TooLarge)),
        ),
    ];
    for (index, (input, expected)) in scenarios.into_iter().enumerate() {
        let result = leb128_u64(input);
        if result != expected {
            panic!(
                "Scenario {} failed: expected {:?} got {:?}",
                index + 1,
                expected,
                result
            );
        }
    }
}

#[test]
fn leb_128_unsigned() {
    let scenarios: Vec<(&'static [u8], ParseResult<u64>)> = vec![
        (&[0b00000001_u8], Ok((&[], 1))),
        (&[0b10000001_u8], Err(ParseError::Incomplete(NEED_ONE))),
        (&[0b10000001, 0b00000001], Ok((&[], 129))),
        (&[0b00000001, 0b00000011], Ok((&[0b00000011], 1))),
        (
            &[129, 129, 129, 129, 129, 129, 129, 129, 129, 129, 129, 129],
            Err(ParseError::Error(ErrorKind::Leb128TooLarge)),
        ),
    ];
    for (index, (input, expected)) in scenarios.clone().into_iter().enumerate() {
        let result = leb128_u64(input);
        if result != expected {
            panic!(
                "Scenario {} failed for u64: expected {:?} got {:?}",
                index + 1,
                expected,
                result
            );
        }
    }

    for (index, (input, expected)) in scenarios.into_iter().enumerate() {
        let u32_expected = expected.map(|(i, e)| (i, u32::try_from(e).unwrap()));
        let result = leb128_u32(input);
        if result != u32_expected {
            panic!(
                "Scenario {} failed for u32: expected {:?} got {:?}",
                index + 1,
                u32_expected,
                result
            );
        }
    }
}

fn encode(mut v: u64) -> Vec<u8> {
    let mut out = Vec::new();
    loop {
        let byte = (v & 0x7f) as u8;
        v >>= 7;
        if v == 0 {
            out.push(byte);
            return out;
        }
        out.push(byte | 0x80);
    }
}

#[test]
fn leb128_round_trips() {
    for v in [0u64, 1, 127, 128, 300, 1 << 35, u32::MAX as u64, u64::MAX - 1, u64::MAX] {
        let mut bytes = encode(v);
        bytes.extend_from_slice(&[0xaa, 0xbb]);
        assert_eq!(leb128_u64(&bytes), Ok((&[0xaa_u8, 0xbb][..], v)));
        if v <= u32::MAX as u64 {
            assert_eq!(leb128_u32(&bytes), Ok((&[0xaa_u8, 0xbb][..], v as u32)));
        }
    }
    assert_eq!(encode(u64::MAX).len(), 10);
    assert_eq!(encode(u32::MAX as u64).len(), 5);
}

#[test]
fn leb128_overlong_and_truncated() {
    let five_continuing = [0x80u8, 0x80, 0x80, 0x80, 0x80, 0x01];
    assert_eq!(leb128_u32(&five_continuing), Err(ParseError::Error(ErrorKind::Leb128TooLarge)));
    assert_eq!(leb128_u64(&five_continuing), Ok((&[][..], 1u64 << 35)));
    assert_eq!(leb128_u64(&[0xff, 0xff, 0xff]), Err(ParseError::Incomplete(Needed::Size(1))));
    assert_eq!(leb128_u64(&[]), Err(ParseError::Incomplete(Needed::Size(1))));
    assert_eq!(leb128_size(64), 10);
    assert_eq!(leb128_size(32), 5);
}
