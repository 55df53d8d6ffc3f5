use kat::positions::{parse_positions, Range};

fn r(start: usize, end: usize) -> Range {
    Range { start, end }
}

#[test]
fn test_parse_positions() {
    let arg = "1";
    let positions = parse_positions(arg);
    assert!(positions.is_ok());
    assert_eq!(positions.unwrap(), vec![r(0, 1)]);

    let arg = "1-3";
    let positions = parse_positions(arg);
    assert!(positions.is_ok());
    assert_eq!(positions.unwrap(), vec![r(0, 3)]);

    let arg = "1-3,8-10";
    let positions = parse_positions(arg);
    assert!(positions.is_ok());
    assert_eq!(positions.unwrap(), vec![r(0, 3), r(7, 10)]);

    // The empty string is an error
    assert!(parse_positions("").is_err());

    // Zero is an error
    let res = parse_positions("0");
    assert!(res.is_err());
    assert_eq!(
        res.unwrap_err().message(),
        "kat: list values may not include zero"
    );

    let res = parse_positions("0-1");
    assert!(res.is_err());
    assert_eq!(
        res.unwrap_err().message(),
        "kat: list values may not include zero",
    );

    // A leading "+" is an error
    let res = parse_positions("+1");
    assert!(res.is_err());
    assert_eq!(res.unwrap_err().message(), "kat: illegal list value: '+1'",);

    let res = parse_positions("+1-2");
    assert!(res.is_err());
    assert_eq!(res.unwrap_err().message(), "kat: illegal list value: '+1'",);

    let res = parse_positions("+2");
    assert!(res.is_err());
    assert_eq!(res.unwrap_err().message(), "kat: illegal list value: '+2'",);

    // Any non-number is an error
    let res = parse_positions("a");
    assert!(res.is_err());
    assert_eq!(res.unwrap_err().message(), "kat: illegal list value: 'a'",);

    let res = parse_positions("1,a");
    assert!(res.is_err());
    assert_eq!(res.unwrap_err().message(), "kat: illegal list value: 'a'",);

    let res = parse_positions("1-a");
    assert!(res.is_err());
    assert_eq!(res.unwrap_err().message(), "kat: illegal list value: 'a'",);

    let res = parse_positions("a-1");
    assert!(res.is_err());
    assert_eq!(res.unwrap_err().message(), "kat: illegal list value: 'a'",);

    // Wonky ranges
    let res = parse_positions("-");
    assert!(res.is_err());

    let res = parse_positions(",");
    assert!(res.is_err());

    let res = parse_positions("1,");
    assert!(res.is_err());

    let res = parse_positions("1-");
    assert!(res.is_err());

    let res = parse_positions("1-1-1");
    assert!(res.is_err());

    let res = parse_positions("1-1-a");
    assert!(res.is_err());

    // First number must be less than second
    let res = parse_positions("1-1");
    assert!(res.is_err());
    assert_eq!(
        res.unwrap_err().message(),
        "First number in range (1) must be lower than second number (1)"
    );

    let res = parse_positions("2-1");
    assert!(res.is_err());
    assert_eq!(
        res.unwrap_err().message(),
        "First number in range (2) must be lower than second number (1)"
    );

    // All the following are acceptable
    let res = parse_positions("1");
    assert!(res.is_ok());
    assert_eq!(res.unwrap(), vec![r(0, 1)]);

    let res = parse_positions("01");
    assert!(res.is_ok());
    assert_eq!(res.unwrap(), vec![r(0, 1)]);

    let res = parse_positions("1,3");
    assert!(res.is_ok());
    assert_eq!(res.unwrap(), vec![r(0, 1), r(2, 3)]);

    let res = parse_positions("001,0003");
    assert!(res.is_ok());
    assert_eq!(res.unwrap(), vec![r(0, 1), r(2, 3)]);

    let res = parse_positions("1-3");
    assert!(res.is_ok());
    assert_eq!(res.unwrap(), vec![r(0, 3)]);

    let res = parse_positions("0001-03");
    assert!(res.is_ok());
    assert_eq!(res.unwrap(), vec![r(0, 3)]);

    let res = parse_positions("1,7,3-5");
    assert!(res.is_ok());
    assert_eq!(res.unwrap(), vec![r(0, 1), r(6, 7), r(2, 5)]);

    let res = parse_positions("15,19-20");
    assert!(res.is_ok());
    assert_eq!(res.unwrap(), vec![r(14, 15), r(18, 20)]);
}

#[test]
fn test_order_preserved_not_merged() {
    // Overlapping and unordered items keep the user's order at parse time.
    let res = parse_positions("3-5,1-4");
    assert!(res.is_ok());
    assert_eq!(res.unwrap(), vec![r(2, 5), r(0, 4)]);
}

#[test]
fn test_large_value_is_illegal() {
    // A numeric component too large for the machine fails to parse.
    let res = parse_positions("99999999999999999999999999");
    assert!(res.is_err());
    assert_eq!(
        res.unwrap_err().message(),
        "kat: illegal list value: '99999999999999999999999999'"
    );
}

#[test]
fn test_trailing_plus_is_illegal() {
    let res = parse_positions("2+");
    assert!(res.is_err());
    assert_eq!(res.unwrap_err().message(), "kat: illegal list value: '2+'");
}

#[test]
fn test_empty_middle_item_is_illegal() {
    let res = parse_positions("1,,2");
    assert!(res.is_err());
    assert_eq!(res.unwrap_err().message(), "kat: illegal list value: ''");
}
