use borrow_validator::text::longest;

#[test]
fn longest_picks_the_longer_first_argument() {
    assert_eq!(longest("abcd", "xyz"), "abcd");
}

#[test]
fn longest_picks_the_longer_second_argument() {
    assert_eq!(longest("a", "xyz"), "xyz");
}

#[test]
fn longest_ties_go_to_the_second_argument() {
    assert_eq!(longest("ab", "cd"), "cd");
}

#[test]
fn longest_measures_bytes() {
    assert_eq!(longest("long string is long", "xyz"), "long string is long");
}
