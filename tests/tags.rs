use helios::tags::{parse_tag, read_till};

#[test]
fn read_till_stops_at_the_first_filter() {
    assert_eq!(read_till("hello.md", "."), "hello");
    assert_eq!(read_till("a.b.c", "."), "a");
    assert_eq!(read_till("abc", "."), "abc");
    assert_eq!(read_till("", "."), "");
    assert_eq!(read_till("rust lang", " "), "rust");
    assert_eq!(read_till("x", ""), "");
    assert_eq!(read_till("key--value--more", "--"), "key");
    assert_eq!(read_till("über.md", "."), "über");
}

#[test]
fn parse_tag_names_by_file_stem() {
    let (name, content) = parse_tag("greeting.md", "be nice".to_string());
    assert_eq!(name, "greeting");
    assert_eq!(content, "be nice");
}
