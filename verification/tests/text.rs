use mcmodgetter::mmg_parse::FILE_EXT;
use mcmodgetter::text::{find_char, followed_by};

#[test]
fn a_character_is_found_where_it_first_stands() {
    assert_eq!(find_char("abcabc", 'a'), 0);
    assert_eq!(find_char("abcabc", 'c'), 2);
    assert_eq!(find_char("a b c", ' '), 1);
}

#[test]
fn a_character_that_is_missing_is_found_at_the_end() {
    assert_eq!(find_char("abc", 'x'), 3);
    assert_eq!(find_char("", 'x'), 0);
}

#[test]
fn characters_are_counted_not_bytes() {
    assert_eq!(find_char("né🦀 x", ' '), 3);
    assert_eq!(find_char("né🦀", ' '), 3);
    assert_eq!(find_char("né🦀", '🦀'), 2);
}

#[test]
fn texts_are_joined_end_to_end() {
    assert_eq!(followed_by("ab", "cd"), "abcd");
    assert_eq!(followed_by("", "cd"), "cd");
    assert_eq!(followed_by("ab", ""), "ab");
    assert_eq!(followed_by("", ""), "");
}

#[test]
fn id_files_end_in_mmg() {
    assert_eq!(FILE_EXT, "mmg");
}
