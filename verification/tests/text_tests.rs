use tictactoe::text::read_coordinate;

#[test]
fn coordinates_are_read_from_typed_lines() {
    assert_eq!(read_coordinate("  12\n"), Some(12));
    assert_eq!(read_coordinate("+0"), Some(0));
    assert_eq!(read_coordinate("-1"), None);
    assert_eq!(read_coordinate("-0"), None);
    assert_eq!(read_coordinate("x"), None);
    assert_eq!(read_coordinate(""), None);
    assert_eq!(read_coordinate("18446744073709551616"), None);
}
