use monkey::parse;

#[test]
fn it_works() {
    assert_eq!(2 + 2, 4);
}

#[test]
fn parse_number() {
    let s = "1234;";
    let program = parse(s).unwrap();
    assert_eq!(program.to_string(), "1234;")
}

#[test]
fn parse_bool() {
    let s = "true;";
    let program = parse(s).unwrap();
    assert_eq!(program.to_string(), "true;")
}

#[should_panic]
#[test]
fn parse_statement_no_end() {
    let s = "1234123";
    let _program = parse(s).unwrap();
}
