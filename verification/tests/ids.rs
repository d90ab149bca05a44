use papers::ids::{int_text, parse_int, Ids, IdsError, IntError};

fn check(actual: &str, expect: &str) {
    let actual = format!("{:?}", Ids::from_str(actual));
    assert_eq!(actual, expect);
}

#[test]
fn test_single() {
    check("1", "Ok(Ids([1]))");
}

#[test]
fn test_commas() {
    check("1,2", "Ok(Ids([1, 2]))");
}

#[test]
fn test_comma_ordering() {
    check("5,1,2", "Ok(Ids([1, 2, 5]))");
}

#[test]
fn test_comma_duplicates() {
    check("1,1", "Ok(Ids([1]))");
}

#[test]
fn test_range() {
    check("1-2", "Ok(Ids([1, 2]))");
}

#[test]
fn test_range_ordering() {
    check("10-14,1-3", "Ok(Ids([1, 2, 3, 10, 11, 12, 13, 14]))");
}

#[test]
fn test_mixed() {
    check("1-4,2", "Ok(Ids([1, 2, 3, 4]))");
}

#[test]
fn ids_empty_text_has_no_ids() {
    assert_eq!(Ids::from_str(""), Err("No ids found".to_owned()));
    assert_eq!(Ids::parse(""), Err(IdsError::NoIds));
}

#[test]
fn ids_report_the_first_bad_piece() {
    assert_eq!(
        Ids::from_str("1,x,y"),
        Err("Failed to parse x as id: invalid digit found in string".to_owned())
    );
    assert_eq!(
        Ids::from_str("1,,2"),
        Err("Failed to parse  as id: cannot parse integer from empty string".to_owned())
    );
    assert_eq!(
        Ids::from_str("3-"),
        Err("Failed to parse  as id: cannot parse integer from empty string".to_owned())
    );
    assert_eq!(
        Ids::from_str("a-3"),
        Err("Failed to parse a as id: invalid digit found in string".to_owned())
    );
    assert_eq!(
        Ids::from_str("99999999999"),
        Err("Failed to parse 99999999999 as id: number too large to fit in target type".to_owned())
    );
    assert_eq!(
        Ids::from_str("1--99999999999"),
        Err("Failed to parse -99999999999 as id: number too small to fit in target type".to_owned())
    );
}

#[test]
fn ids_messages_match_the_standard_library() {
    for text in ["", "x", "+", "-", "12x", "99999999999", "-99999999999", "99999999999x", "2147483648"] {
        let ours = parse_int(text).map_err(|e| e.reason().to_owned());
        let std = text.parse::<i32>().map_err(|e| e.to_string());
        assert_eq!(ours, std, "for {:?}", text);
    }
}

#[test]
fn ids_numbers_parse_like_the_standard_library() {
    for text in ["0", "7", "+7", "-7", "007", "2147483647", "-2147483648", "-0", "123456"] {
        assert_eq!(parse_int(text).ok(), text.parse::<i32>().ok(), "for {:?}", text);
    }
    assert_eq!(parse_int("2147483647"), Ok(i32::MAX));
    assert_eq!(parse_int("-2147483648"), Ok(i32::MIN));
    assert_eq!(parse_int("2147483648"), Err(IntError::PosOverflow));
    assert_eq!(parse_int("-2147483649"), Err(IntError::NegOverflow));
    assert_eq!(parse_int(""), Err(IntError::Empty));
    assert_eq!(parse_int("-"), Err(IntError::InvalidDigit));
}

#[test]
fn ids_backward_range_is_empty() {
    assert_eq!(Ids::from_str("4-1"), Ok(Ids(vec![])));
    assert_eq!(Ids::from_str("4-1,7"), Ok(Ids(vec![7])));
}

#[test]
fn ids_ranges_may_reach_below_zero() {
    assert_eq!(Ids::from_str("0--2"), Ok(Ids(vec![])));
    assert_eq!(Ids::from_str("2147483646-2147483647"), Ok(Ids(vec![2147483646, 2147483647])));
}

#[test]
fn ids_overlapping_ranges_merge() {
    assert_eq!(Ids::from_str("5-8,1-6,20,7"), Ok(Ids(vec![1, 2, 3, 4, 5, 6, 7, 8, 20])));
}

#[test]
fn ids_are_written_with_commas() {
    assert_eq!(Ids(vec![1, 2, 5]).to_text(), "1,2,5");
    assert_eq!(Ids(vec![]).to_text(), "");
    assert_eq!(Ids(vec![-3, 0, 10]).to_text(), "-3,0,10");
    assert_eq!(int_text(i32::MIN), "-2147483648");
    assert_eq!(int_text(i32::MAX), "2147483647");
}

#[test]
fn ids_round_trip_through_text() {
    let ids = Ids::from_str("10-14,1-3").unwrap();
    assert_eq!(Ids::from_str(&ids.to_text()), Ok(ids));
}

/// The same reading, done with the standard library's set and parser.
fn reference(s: &str) -> Result<Vec<i32>, String> {
    let mut ids = std::collections::BTreeSet::new();
    if s.is_empty() {
        return Err("No ids found".to_owned());
    }
    for s in s.split(',') {
        if let Some((start, end)) = s.split_once('-') {
            let start = start
                .parse::<i32>()
                .map_err(|e| format!("Failed to parse {} as id: {}", start, e))?;
            let end =
                end.parse::<i32>().map_err(|e| format!("Failed to parse {} as id: {}", end, e))?;
            ids.extend(start..=end);
        } else {
            match s.parse() {
                Ok(id) => {
                    ids.insert(id);
                }
                Err(err) => return Err(format!("Failed to parse {} as id: {}", s, err)),
            }
        }
    }
    Ok(ids.into_iter().collect())
}

#[test]
fn ids_agree_with_the_standard_library() {
    let inputs = [
        "", "1", "1,2", "5,1,2", "1,1", "1-2", "10-14,1-3", "1-4,2", "4-1", "1-", "-1", "1--1",
        "a", "1,a", "a,1", "1-a", "a-1", ",", "1,", ",1", "1,,2", " 1", "1 ", "+1", "+1-+3",
        "007", "2147483647", "2147483648", "-2147483648", "0--3", "3-3", "1-3,2-5,9", "9,2-5,1-3",
        "1-2-3", "99999999999", "1-99999999999x", "x-99999999999", "٣", "1,٣",
    ];
    for input in inputs {
        assert_eq!(Ids::from_str(input).map(|ids| ids.0), reference(input), "for {:?}", input);
    }
}
