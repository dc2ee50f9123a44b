use pngme::text::char_count;

#[test]
fn counts_characters_not_bytes() {
    assert_eq!(char_count(""), 0);
    assert_eq!(char_count("RuSt"), 4);
    assert_eq!(char_count("éé"), 2);
    assert_eq!(char_count("Ruß"), 3);
    assert_eq!(char_count("a✓😀"), 3);
}
