use ringbuf::cores::{parse_number, parse_numbers, CorePair, CorePairError, NumberError};

#[test]
fn numbers_are_read_as_std_reads_them() {
    let samples = [
        "0",
        "7",
        "42",
        "007",
        "+5",
        "+",
        "-",
        "-3",
        "++5",
        "",
        " 1",
        "1 ",
        "12a",
        "a12",
        "18446744073709551615",
        "18446744073709551616",
        "4294967295",
        "4294967296",
        "99999999999999999999999",
        "99999999999999999999999x",
        "1x99999999999999999999999",
    ];
    for text in samples {
        let ours = parse_number(text.as_bytes());
        match text.parse::<usize>() {
            Ok(n) => assert_eq!(ours, Ok(n)),
            Err(e) => {
                let ours = ours.unwrap_err();
                assert_eq!(ours.message(), e.to_string());
            }
        }
    }
}

#[test]
fn number_errors() {
    assert_eq!(parse_number(b""), Err(NumberError::Empty));
    assert_eq!(parse_number(b"+"), Err(NumberError::InvalidDigit));
    assert_eq!(parse_number(b"1,2"), Err(NumberError::InvalidDigit));
    assert_eq!(
        parse_number(b"340282366920938463463374607431768211456"),
        Err(NumberError::TooLarge)
    );
    assert_eq!(parse_number(b"+12"), Ok(12));
    assert_eq!(parse_number(b"1234567"), Ok(1234567));
}

#[test]
fn two_numbers() {
    assert_eq!(parse_numbers(b"3,5"), Ok((3, 5)));
    assert_eq!(parse_numbers(b"10,0"), Ok((10, 0)));
    assert_eq!(parse_numbers(b""), Err(CorePairError::ExpectTwoNumbers));
    assert_eq!(parse_numbers(b"3"), Err(CorePairError::ExpectTwoNumbers));
    assert_eq!(parse_numbers(b"3,5,7"), Err(CorePairError::ExpectTwoNumbers));
    assert_eq!(parse_numbers(b"3,5,"), Err(CorePairError::ExpectTwoNumbers));
    assert_eq!(
        parse_numbers(b","),
        Err(CorePairError::Number(NumberError::Empty))
    );
    assert_eq!(
        parse_numbers(b"3,"),
        Err(CorePairError::Number(NumberError::Empty))
    );
    assert_eq!(
        parse_numbers(b"x,"),
        Err(CorePairError::Number(NumberError::InvalidDigit))
    );
    assert_eq!(
        parse_numbers(b"3, 5"),
        Err(CorePairError::Number(NumberError::InvalidDigit))
    );
}

#[test]
fn cores_are_looked_up() {
    let ids = vec![0, 1, 2, 5];
    assert_eq!(
        CorePair::select(&ids, 1, 5),
        Ok(CorePair {
            producer: 1,
            consumer: 5
        })
    );
    assert_eq!(
        CorePair::select(&ids, 2, 2),
        Ok(CorePair {
            producer: 2,
            consumer: 2
        })
    );
    assert_eq!(CorePair::select(&ids, 3, 5), Err(CorePairError::NotFound(3)));
    assert_eq!(CorePair::select(&ids, 1, 4), Err(CorePairError::NotFound(4)));
    // the consumer is reported first
    assert_eq!(CorePair::select(&ids, 3, 4), Err(CorePairError::NotFound(4)));
    assert_eq!(CorePair::select(&vec![], 0, 0), Err(CorePairError::NotFound(0)));
}

#[test]
fn text_is_read_and_checked() {
    let ids = vec![0, 1, 2, 5];
    assert_eq!(
        CorePair::parse("5,0", &ids),
        Ok(CorePair {
            producer: 5,
            consumer: 0
        })
    );
    assert_eq!(CorePair::parse("5;0", &ids), Err(CorePairError::ExpectTwoNumbers));
    assert_eq!(CorePair::parse("5,9", &ids), Err(CorePairError::NotFound(9)));
    assert_eq!(
        CorePair::parse("5,z", &ids),
        Err(CorePairError::Number(NumberError::InvalidDigit))
    );
    assert_eq!(
        CorePair::parse("é,1", &ids),
        Err(CorePairError::Number(NumberError::InvalidDigit))
    );
}

#[test]
fn last_two_cores() {
    assert_eq!(CorePair::last_two(&vec![]), None);
    assert_eq!(CorePair::last_two(&vec![4]), None);
    assert_eq!(
        CorePair::last_two(&vec![4, 6]),
        Some(CorePair {
            producer: 6,
            consumer: 4
        })
    );
    assert_eq!(
        CorePair::last_two(&vec![0, 1, 2, 3]),
        Some(CorePair {
            producer: 3,
            consumer: 2
        })
    );
}

#[test]
fn messages() {
    assert_eq!(CorePairError::ExpectTwoNumbers.message(), "expect 2 number");
    assert_eq!(CorePairError::NotFound(12).message(), "core id 12 not found");
    assert_eq!(CorePairError::NotFound(0).message(), "core id 0 not found");
    assert_eq!(
        CorePairError::Number(NumberError::Empty).message(),
        "cannot parse integer from empty string"
    );
    assert_eq!(
        CorePairError::Number(NumberError::InvalidDigit).message(),
        "invalid digit found in string"
    );
    assert_eq!(
        CorePairError::Number(NumberError::TooLarge).message(),
        "number too large to fit in target type"
    );
    assert_eq!(CorePairError::Unavailable.message(), "core ids not available");
    let pair = CorePair {
        producer: 3,
        consumer: 15,
    };
    assert_eq!(pair.to_text(), "(3,15)");
}

#[test]
fn the_system_is_asked_for_its_cores() {
    assert_eq!(CorePair::from_str("1"), Err(CorePairError::ExpectTwoNumbers));
    assert_eq!(
        CorePair::from_str("1,b"),
        Err(CorePairError::Number(NumberError::InvalidDigit))
    );
    match core_affinity::get_core_ids() {
        None => {
            assert_eq!(CorePair::from_str("0,0"), Err(CorePairError::Unavailable));
            assert_eq!(CorePair::available(), None);
        }
        Some(ids) => {
            assert!(ids.windows(2).all(|w| w[0].id < w[1].id));
            if let Some(pair) = CorePair::available() {
                assert!(pair.consumer < pair.producer);
            }
            if ids.len() >= 2 {
                let last = ids[ids.len() - 1].id;
                let before = ids[ids.len() - 2].id;
                assert_eq!(
                    CorePair::available(),
                    Some(CorePair {
                        producer: last,
                        consumer: before
                    })
                );
                assert_eq!(
                    CorePair::from_str(&format!("{},{}", before, last)),
                    Ok(CorePair {
                        producer: before,
                        consumer: last
                    })
                );
            } else {
                assert_eq!(CorePair::available(), None);
            }
            let absent = ids.iter().map(|c| c.id).max().map_or(0, |m| m + 1);
            assert_eq!(
                CorePair::from_str(&format!("{},{}", absent, absent)),
                Err(CorePairError::NotFound(absent))
            );
        }
    }
}
