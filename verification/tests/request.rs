use hero_crud::hero::Hero;
use hero_crud::request::{decode, parse_id, DecodeError, Request};
use hero_crud::store::StoreOp;

fn hero(name: &str) -> Hero {
    Hero::new(name.to_string())
}

#[test]
fn parse_id_reads_plain_digits() {
    assert_eq!(parse_id(b"1"), Some(1));
    assert_eq!(parse_id(b"0"), Some(0));
    assert_eq!(parse_id(b"42"), Some(42));
    assert_eq!(parse_id(b"1234567890"), Some(1234567890));
}

#[test]
fn parse_id_reads_a_sign() {
    assert_eq!(parse_id(b"+7"), Some(7));
    assert_eq!(parse_id(b"-7"), Some(-7));
    assert_eq!(parse_id(b"-0"), Some(0));
    assert_eq!(parse_id(b"+0"), Some(0));
}

#[test]
fn parse_id_allows_leading_zeros() {
    assert_eq!(parse_id(b"007"), Some(7));
    assert_eq!(parse_id(b"-0012"), Some(-12));
    assert_eq!(parse_id(b"0000000000000000000000000000000000000001"), Some(1));
    assert_eq!(parse_id(b"00000000000000000000002147483647"), Some(i32::MAX));
}

#[test]
fn parse_id_reads_the_limits_of_the_id_type() {
    assert_eq!(parse_id(b"2147483647"), Some(i32::MAX));
    assert_eq!(parse_id(b"-2147483648"), Some(i32::MIN));
}

#[test]
fn parse_id_refuses_numbers_out_of_range() {
    assert_eq!(parse_id(b"2147483648"), None);
    assert_eq!(parse_id(b"+2147483648"), None);
    assert_eq!(parse_id(b"-2147483649"), None);
    assert_eq!(parse_id(b"99999999999999999999999999"), None);
    assert_eq!(parse_id(b"-99999999999999999999999999"), None);
    assert_eq!(parse_id(b"21474836470"), None);
}

#[test]
fn parse_id_refuses_what_is_no_number() {
    assert_eq!(parse_id(b""), None);
    assert_eq!(parse_id(b"+"), None);
    assert_eq!(parse_id(b"-"), None);
    assert_eq!(parse_id(b"--1"), None);
    assert_eq!(parse_id(b"+-1"), None);
    assert_eq!(parse_id(b"1-"), None);
    assert_eq!(parse_id(b"12a"), None);
    assert_eq!(parse_id(b"a12"), None);
    assert_eq!(parse_id(b" 1"), None);
    assert_eq!(parse_id(b"1 "), None);
    assert_eq!(parse_id(b"1.0"), None);
    assert_eq!(parse_id(b"0x10"), None);
    assert_eq!(parse_id("\u{ff11}".as_bytes()), None);
    assert_eq!(parse_id(b"99999999999999999999999999x"), None);
}

#[test]
fn parse_id_agrees_with_the_standard_parser() {
    let samples: [&str; 12] = [
        "5", "+5", "-5", "", "+", "05", "2147483647", "2147483648", "-2147483648", "-2147483649",
        "1e3", "१",
    ];
    for sample in samples {
        assert_eq!(parse_id(sample.as_bytes()), sample.parse::<i32>().ok(), "{:?}", sample);
    }
}

#[test]
fn decode_list_needs_nothing() {
    assert_eq!(decode(Request::List), Ok(StoreOp::List));
}

#[test]
fn decode_create_drops_the_id_of_the_body() {
    let with_id = Hero { id: Some(99), name: "A".to_string() };
    assert_eq!(
        decode(Request::Create { body: Some(with_id) }),
        Ok(StoreOp::Create(hero("A")))
    );
    assert_eq!(
        decode(Request::Create { body: Some(hero("A")) }),
        Ok(StoreOp::Create(hero("A")))
    );
}

#[test]
fn decode_create_without_a_body_is_a_bad_body() {
    assert_eq!(decode(Request::Create { body: None }), Err(DecodeError::BadBody));
}

#[test]
fn decode_update_gives_the_body_the_id_of_the_path() {
    let body = Hero { id: Some(99), name: "B".to_string() };
    assert_eq!(
        decode(Request::Update { id: b"7".to_vec(), body: Some(body) }),
        Ok(StoreOp::Update(7, Hero { id: Some(7), name: "B".to_string() }))
    );
    assert_eq!(
        decode(Request::Update { id: b"3".to_vec(), body: Some(hero("C")) }),
        Ok(StoreOp::Update(3, Hero { id: Some(3), name: "C".to_string() }))
    );
}

#[test]
fn decode_update_reports_a_bad_id_before_a_bad_body() {
    assert_eq!(
        decode(Request::Update { id: b"x".to_vec(), body: None }),
        Err(DecodeError::BadId)
    );
    assert_eq!(
        decode(Request::Update { id: b"x".to_vec(), body: Some(hero("B")) }),
        Err(DecodeError::BadId)
    );
    assert_eq!(
        decode(Request::Update { id: b"1".to_vec(), body: None }),
        Err(DecodeError::BadBody)
    );
}

#[test]
fn decode_delete_reads_the_id() {
    assert_eq!(decode(Request::Delete { id: b"12".to_vec() }), Ok(StoreOp::Delete(12)));
    assert_eq!(decode(Request::Delete { id: b"-3".to_vec() }), Ok(StoreOp::Delete(-3)));
    assert_eq!(
        decode(Request::Delete { id: b"twelve".to_vec() }),
        Err(DecodeError::BadId)
    );
    assert_eq!(decode(Request::Delete { id: Vec::new() }), Err(DecodeError::BadId));
}

#[test]
fn parse_id_agrees_with_the_standard_parser_on_every_short_text() {
    let alphabet: [u8; 8] = [b'+', b'-', b'0', b'1', b'9', b'a', b' ', b'/'];
    let mut texts: Vec<Vec<u8>> = vec![Vec::new()];
    let mut start = 0;
    for _ in 0..4 {
        let end = texts.len();
        for at in start..end {
            for byte in alphabet {
                let mut longer = texts[at].clone();
                longer.push(byte);
                texts.push(longer);
            }
        }
        start = end;
    }
    assert_eq!(texts.len(), 1 + 8 + 64 + 512 + 4096);
    for text in texts {
        let expected = std::str::from_utf8(&text).unwrap().parse::<i32>().ok();
        assert_eq!(parse_id(&text), expected, "{:?}", text);
    }
}

#[test]
fn parse_id_agrees_with_the_standard_parser_around_the_limits() {
    let limits: [i64; 4] = [i32::MIN as i64, i32::MAX as i64, 0, 4294967296];
    for limit in limits {
        for offset in -3..=3 {
            let number = limit + offset;
            for text in [number.to_string(), format!("+{}", number), format!("00{}", number)] {
                assert_eq!(parse_id(text.as_bytes()), text.parse::<i32>().ok(), "{:?}", text);
            }
        }
    }
}
