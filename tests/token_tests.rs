use mach::token::next_invite_token;

#[test]
fn invite_token_test() {
    let mut start = String::from("aaaaaaaa").into_bytes();
    assert_eq!(next_invite_token(&mut start), String::from("aaaaaaaa"));
    assert_eq!(next_invite_token(&mut start), String::from("aaaaaaab"));
    let mut start = String::from("aaaaaaaz").into_bytes();
    assert_eq!(next_invite_token(&mut start), String::from("aaaaaaaz"));
    assert_eq!(next_invite_token(&mut start), String::from("aaaaaaba"));
    assert_eq!(next_invite_token(&mut start), String::from("aaaaaabb"));
    let mut start = String::from("aaaaaazz").into_bytes();
    assert_eq!(next_invite_token(&mut start), String::from("aaaaaazz"));
    assert_eq!(next_invite_token(&mut start), String::from("aaaaabaa"));
    assert_eq!(next_invite_token(&mut start), String::from("aaaaabab"));
}

#[test]
fn first_twenty_seven_tokens_increase() {
    let mut counter = String::from("aaaaaaaa").into_bytes();
    let mut seen: Vec<String> = Vec::new();
    for _ in 0..27 {
        seen.push(next_invite_token(&mut counter));
    }
    assert_eq!(seen[0], "aaaaaaaa");
    assert_eq!(seen[1], "aaaaaaab");
    assert_eq!(seen[2], "aaaaaaac");
    assert_eq!(seen[25], "aaaaaaaz");
    assert_eq!(seen[26], "aaaaaaba");
    for pair in seen.windows(2) {
        assert!(pair[0] < pair[1]);
        assert_eq!(pair[1].len(), 8);
    }
    assert_eq!(counter, b"aaaaaabb".to_vec());
}

#[test]
fn token_carry_over_several_digits() {
    let mut counter = String::from("abzzzzzz").into_bytes();
    assert_eq!(next_invite_token(&mut counter), "abzzzzzz");
    assert_eq!(next_invite_token(&mut counter), "acaaaaaa");
}

#[test]
fn token_last_before_exhaustion() {
    let mut counter = String::from("zzzzzzzy").into_bytes();
    assert_eq!(next_invite_token(&mut counter), "zzzzzzzy");
    assert_eq!(counter, b"zzzzzzzz".to_vec());
}
