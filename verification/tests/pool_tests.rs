use hypertyper::config::Config;
use hypertyper::pool::{filter_words, get_words, keep_word, WordPool};

fn strings(words: &[&str]) -> Vec<String> {
    words.iter().map(|w| w.to_string()).collect()
}

fn sorted(words: &Vec<String>) -> Vec<String> {
    let mut out = words.clone();
    out.sort();
    out
}

#[test]
fn keep_word_without_limit_keeps_everything() {
    assert!(keep_word("", 0));
    assert!(keep_word("extraordinarily", 0));
}

#[test]
fn keep_word_compares_with_the_limit() {
    assert!(keep_word("cat", 3));
    assert!(!keep_word("bird", 3));
    assert!(keep_word("", 1));
}

#[test]
fn keep_word_counts_bytes() {
    assert!(!keep_word("\u{e9}", 1));
    assert!(keep_word("\u{e9}", 2));
}

#[test]
fn filter_words_keeps_order() {
    let words = strings(&["cat", "horse", "", "ox", "bird", "ant"]);
    assert_eq!(filter_words(&words, 3), strings(&["cat", "", "ox", "ant"]));
    assert_eq!(filter_words(&words, 0), words);
    assert_eq!(filter_words(&words, 1), strings(&[""]));
}

#[test]
fn retained_words_fit_the_limit() {
    let raw = "a\nbb\nccc\ndddd\neeeee\n\nffffff\ngg";
    for limit in 1..8usize {
        let pool = WordPool::build(raw, limit);
        assert_eq!(pool.max_word_length(), limit);
        for word in pool.words().iter() {
            assert!(word.len() <= limit);
        }
    }
}

#[test]
fn no_limit_retains_every_line() {
    let raw = "a\nbb\n\nccc\ndddd";
    let pool = WordPool::in_order(raw, 0);
    assert_eq!(pool.words(), &strings(&["a", "bb", "", "ccc", "dddd"]));
    assert_eq!(pool.len(), 5);
}

#[test]
fn in_order_filters_the_lines() {
    let pool = WordPool::in_order("cat\nhorse\ndog\r\nzebra\nant\n", 3);
    assert_eq!(pool.words(), &strings(&["cat", "dog", "ant"]));
    assert_eq!(pool.get(1).map(|w| w.as_str()), Some("dog"));
    assert_eq!(pool.get(3), None);
    assert!(!pool.is_empty());
}

#[test]
fn from_words_filters_the_words() {
    let pool = WordPool::from_words(&strings(&["cat", "horse", "dog"]), 4);
    assert_eq!(pool.words(), &strings(&["cat", "dog"]));
    assert_eq!(pool.max_word_length(), 4);
}

#[test]
fn empty_text_gives_empty_pool() {
    let pool = WordPool::build("", 0);
    assert!(pool.is_empty());
    assert_eq!(pool.len(), 0);
    assert_eq!(pool.get(0), None);
}

#[test]
fn build_is_a_permutation_of_the_filtered_lines() {
    let raw = "cat\ndog\nbird\nfish\nant\ncat\n\nelephant\nox";
    for limit in [0usize, 3, 4, 8] {
        let expected = WordPool::in_order(raw, limit);
        for _ in 0..20 {
            let pool = WordPool::build(raw, limit);
            assert_eq!(sorted(pool.words()), sorted(expected.words()));
        }
    }
}

#[test]
fn build_with_is_a_permutation_of_the_filtered_lines() {
    let raw = "one\ntwo\nthree\nfour\nfive\nsix";
    let mut rng = rand::thread_rng();
    let pool = WordPool::build_with(raw, 4, &mut rng);
    assert_eq!(sorted(pool.words()), strings(&["five", "four", "one", "six", "two"]));
}

#[test]
fn build_changes_the_order() {
    let words: Vec<String> = (0..200).map(|i| format!("w{}", i)).collect();
    let raw = words.join("\n");
    let pool = WordPool::build(&raw, 0);
    assert_eq!(pool.len(), 200);
    assert_ne!(pool.words(), &words);
    assert_eq!(sorted(pool.words()), sorted(&words));
}

#[test]
fn get_words_follows_the_configured_difficulty() {
    let config = Config::new(Some(3), None, None);
    let pool = get_words("cat\nhorse\ndog\nzebra\nant", &config);
    assert_eq!(sorted(pool.words()), strings(&["ant", "cat", "dog"]));
    assert_eq!(pool.max_word_length(), 3);
}
