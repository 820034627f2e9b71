use cce_engine::alignment::align_source_range;

const SOURCE: &str = "fn main() {\n    let x = foo(1);\n}\n";

#[test]
fn code_at_the_reported_column() {
    assert_eq!(align_source_range(SOURCE, 2, Some(12), Some("foo(1)")), Some((24, 30)));
    // One past the code still finds it at the previous column.
    assert_eq!(align_source_range(SOURCE, 2, Some(13), Some("foo(1)")), Some((24, 30)));
}

#[test]
fn code_found_elsewhere_in_the_line() {
    assert_eq!(align_source_range(SOURCE, 2, None, Some("x =")), Some((20, 23)));
    assert_eq!(align_source_range(SOURCE, 2, Some(0), Some("x =")), Some((20, 23)));
}

#[test]
fn falls_back_to_the_trimmed_line() {
    assert_eq!(align_source_range(SOURCE, 2, Some(3), Some("bar")), Some((16, 31)));
    assert_eq!(align_source_range(SOURCE, 1, None, None), Some((0, 11)));
}

#[test]
fn blank_and_missing_lines_do_not_align() {
    assert_eq!(align_source_range("a\n   \nb", 2, None, None), None);
    assert_eq!(align_source_range(SOURCE, 0, None, None), None);
    assert_eq!(align_source_range(SOURCE, 9, None, Some("x")), None);
}

#[test]
fn offsets_are_bytes_and_columns_are_chars() {
    assert_eq!(align_source_range("héllo wörld", 1, Some(6), Some("wörld")), Some((7, 13)));
}
