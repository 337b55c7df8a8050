use exray::csv_parser::{skip_next, take_and_skip, take_until, Csv, CsvError};

fn make_csv(data: &str) -> Result<Csv, CsvError> {
    Csv::new(data)
}

fn row_get<'a>(row: &'a [(String, String)], key: &str) -> &'a str {
    for (k, v) in row {
        if k == key {
            return v.as_str();
        }
    }
    panic!("no value for column");
}

#[test]
fn csv_parser_it_works() {
    assert_eq!(2 + 2, 4);
}

#[test]
fn test_skip_next() {
    assert_eq!(skip_next("(foo", '('), Some("foo"));
    assert_eq!(skip_next("(foo", '*'), None);
    assert_eq!(skip_next("Ñfoo", 'Ñ'), Some("foo"));
    assert_eq!(skip_next("ÑðŸ˜ŠÑðŸ˜Š", 'Ñ'), Some("ðŸ˜ŠÑðŸ˜Š"));
    assert_eq!(skip_next("", '('), None);
}

#[test]
fn test_take_until() {
    assert_eq!(take_until(" foo/bar ", '/'), (" foo", "/bar "));
    assert_eq!(take_until(" foo/bar/foo// ", '/'), (" foo", "/bar/foo// "));
    assert_eq!(take_until(" foo/bar Ñ", 'Ñ'), (" foo/bar ", "Ñ"));
    assert_eq!(take_until("foobar", '/'), ("foobar", ""));
    assert_eq!(take_until("", '/'), ("", ""));
}

#[test]
fn test_take_and_skip() {
    assert_eq!(take_and_skip(" foo/bar ", '/'), Some((" foo", "bar ")));
    assert_eq!(
        take_and_skip(" foo/bar/foo// ", '/'),
        Some((" foo", "bar/foo// "))
    );
    assert_eq!(take_and_skip(" foo/bar Ñ", 'Ñ'), Some((" foo/bar ", "")));
    assert_eq!(take_and_skip("foobar", '/'), None);
    assert_eq!(take_and_skip("", '/'), None);
}

#[test]
fn test_csv_new_errors() {
    assert!(matches!(make_csv("").err(), Some(CsvError::InvalidHeader(_))));
    assert!(matches!(make_csv("\n").err(), Some(CsvError::InvalidHeader(_))));
    assert!(matches!(make_csv("djskd, dsjk   , ,\n").err(), None));
    assert!(matches!(
        make_csv("djskd, dsjk   , ,    , djk\n").err(),
        Some(CsvError::InvalidHeader(_))
    ));
    assert!(matches!(make_csv("djskaljsd").err(), None));
    assert!(matches!(
        make_csv("dj, dja, dsjask, dj\n").err(),
        Some(CsvError::InvalidHeader(_))
    ));
    assert!(matches!(make_csv("djskaljsd\n").err(), None));
    assert!(matches!(make_csv("djskaljsd, jkjdskd,  \n").err(), None));
}

#[test]
fn test_parse_line_errors() {
    let row = make_csv("name, age, birth date \n")
        .unwrap()
        .parse_line(r#""Basic Name","13","2020-01-01""#)
        .unwrap();
    assert_eq! {
        (row_get(&row, "name"), row_get(&row, "age"), row_get(&row, "birth date")),
        ("Basic Name", "13", "2020-01-01"),
    };
    let row2 = make_csv("name, age, birth date \n")
        .unwrap()
        .parse_line(r#""Basic,Name"," 13 ","2020,01,01""#)
        .unwrap();
    assert_eq! {
        (row_get(&row2, "name"), row_get(&row2, "age"), row_get(&row2, "birth date")),
        ("Basic,Name", " 13 ", "2020,01,01"),
    };
    assert!(matches!(
        make_csv("a, b\n")
            .unwrap()
            .parse_line(r#" "jkjk "jkjk" "#)
            .err(),
        Some(CsvError::InvalidRow(_))
    ));
    assert!(matches!(
        make_csv("a, b\n")
            .unwrap()
            .parse_line(r#" "jkjk" , "jkjk "#)
            .err(),
        Some(CsvError::InvalidRow(_))
    ));
    assert!(matches!(
        make_csv("a, b\n").unwrap().parse_line(r#" "jkjk", "#).err(),
        Some(CsvError::InvalidRow(_))
    ));
    assert!(matches!(
        make_csv("a, b\n")
            .unwrap()
            .parse_line(r#" "jkjk", "a", "b" "#)
            .err(),
        Some(CsvError::InvalidRow(_))
    ));
    assert!(matches!(
        make_csv("a, b\n")
            .unwrap()
            .parse_line(r#" "jkjk" , "jkjk"    "#)
            .err(),
        None
    ));
    assert!(matches!(
        make_csv("a, b\n")
            .unwrap()
            .parse_line(r#" "jk , jk" , "jk jk",    "#)
            .err(),
        None
    ));
    assert!(matches!(
        make_csv("a, b, c\n")
            .unwrap()
            .parse_line(r#" "jk , jk" ,"", "jk jk", "#)
            .err(),
        None
    ));
}

#[test]
fn test_csv_columns() {
    let csv = make_csv("name, age, birth date \n").unwrap();
    assert_eq!(csv.columns, vec!["name", "age", "birth date"]);
}
