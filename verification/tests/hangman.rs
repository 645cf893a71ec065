use deet::hangman::{is_guessed, judge, pick_a_random_word, show_word, word_on_line, Verdict};
use deet::hangman::NUM_INCORRECT_GUESSES;

#[test]
fn a_word_is_shown_with_dashes_for_letters_not_named() {
    assert_eq!(show_word("rust", &vec![]), vec!['-', '-', '-', '-']);
    assert_eq!(show_word("rust", &vec!['u', 'x']), vec!['-', 'u', '-', '-']);
    assert_eq!(show_word("letter", &vec!['t', 'e']), vec!['-', 'e', 't', 't', 'e', '-']);
    assert_eq!(show_word("ab", &vec!['b', 'a']), vec!['a', 'b']);
    assert_eq!(show_word("", &vec!['a']), Vec::<char>::new());
    assert_eq!(show_word("a-b", &vec![]), vec!['-', '-', '-']);
}

#[test]
fn a_letter_is_guessed_if_it_is_among_the_named() {
    assert!(is_guessed(&vec!['a', 'b'], 'b'));
    assert!(!is_guessed(&vec!['a', 'b'], 'c'));
    assert!(!is_guessed(&vec![], 'a'));
}

#[test]
fn the_game_is_won_when_every_letter_is_named() {
    let secret: Vec<char> = "noon".chars().collect();
    assert_eq!(judge(&secret, &vec!['o', 'n']), Verdict::Won);
    assert_eq!(judge(&secret, &vec!['x', 'o', 'y', 'z', 'n']), Verdict::Won);
    assert_eq!(judge(&Vec::new(), &vec![]), Verdict::Won);
}

#[test]
fn the_game_is_lost_when_the_guesses_are_used_up() {
    let secret: Vec<char> = "noon".chars().collect();
    assert_eq!(NUM_INCORRECT_GUESSES, 5);
    assert_eq!(judge(&secret, &vec!['a', 'b', 'c', 'd', 'n']), Verdict::Lost);
    assert_eq!(judge(&secret, &vec!['a', 'b', 'c', 'n']), Verdict::Open);
    assert_eq!(judge(&secret, &vec![]), Verdict::Open);
    assert_eq!(judge(&secret, &vec!['a', 'b', 'c', 'd', 'e', 'f']), Verdict::Open);
}

#[test]
fn the_word_on_a_line_is_the_line_without_white_space_around_it() {
    let lines = vec!["apple", "  pear\r", "", " a b "];
    assert_eq!(word_on_line(&lines, 0), "apple");
    assert_eq!(word_on_line(&lines, 1), "pear");
    assert_eq!(word_on_line(&lines, 2), "");
    assert_eq!(word_on_line(&lines, 3), "a b");
}

#[test]
fn a_random_word_is_one_of_the_words() {
    let text = "apple\n pear \nplum\r\ncherry";
    let words = ["apple", "pear", "plum", "cherry"];
    let mut seen = [false; 4];
    for _ in 0..400 {
        let word = pick_a_random_word(text);
        let index = words.iter().position(|w| *w == word).expect("a word of the list");
        seen[index] = true;
    }
    assert!(seen.iter().all(|s| *s));
}

#[test]
fn a_random_word_from_one_line_is_that_line() {
    assert_eq!(pick_a_random_word("only"), "only");
    assert_eq!(pick_a_random_word(""), "");
}
