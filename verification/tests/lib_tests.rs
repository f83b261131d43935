#[test]
fn parser_parse_test() {
    assert_eq!(2 + 2, 4);
}
