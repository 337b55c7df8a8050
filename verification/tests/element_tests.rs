use exray::element::{parse_u64, Element};

#[test]
fn test_element_from_str_basic() {
    let e = Element::from_str("Bulgaria;2020-01;5;2").unwrap();
    assert_eq!(e.country, "bulgaria");
    assert_eq!(e.year_week, "2020-01");
    assert_eq!(e.cases, 5);
    assert_eq!(e.deaths, 2);
}

#[test]
fn test_element_from_str_trims_parts() {
    let e = Element::from_str("  France ; 2021-17 ; 120 ; 7  ").unwrap();
    assert_eq!(e.country, "france");
    assert_eq!(e.year_week, "2021-17");
    assert_eq!(e.cases, 120);
    assert_eq!(e.deaths, 7);
}

#[test]
fn test_element_from_str_errors() {
    // Too few and too many parts; a trailing semicolon adds an empty part.
    assert!(Element::from_str("a;2020-01;1").is_err());
    assert!(Element::from_str("a;2020-01;1;2;").is_err());
    assert!(Element::from_str("").is_err());
    // The week must be seven characters long.
    assert!(Element::from_str("a;2020-1;1;2").is_err());
    // The counts must be unsigned 64-bit numbers.
    assert!(Element::from_str("a;2020-01;x;2").is_err());
    assert!(Element::from_str("a;2020-01;1;-2").is_err());
    assert!(Element::from_str("a;2020-01;;2").is_err());
    assert!(Element::from_str("a;2020-01;18446744073709551616;2").is_err());
}

#[test]
fn test_element_clone() {
    let e = Element::from_str("Spain;2020-10;9;1").unwrap();
    let c = e.clone();
    assert_eq!(c.country, e.country);
    assert_eq!(c.year_week, e.year_week);
    assert_eq!(c.cases, e.cases);
    assert_eq!(c.deaths, e.deaths);
}

#[test]
fn test_parse_u64() {
    assert_eq!(parse_u64("0"), Some(0));
    assert_eq!(parse_u64("42"), Some(42));
    assert_eq!(parse_u64("+42"), Some(42));
    assert_eq!(parse_u64("18446744073709551615"), Some(u64::MAX));
    assert_eq!(parse_u64("18446744073709551616"), None);
    assert_eq!(parse_u64(""), None);
    assert_eq!(parse_u64("+"), None);
    assert_eq!(parse_u64("-1"), None);
    assert_eq!(parse_u64("1 2"), None);
    assert_eq!(parse_u64("007"), Some(7));
}
