use wiredtiger_glue::utils::{extract_ngrams_for_string, extract_words_for_string};

fn words(text: &[u8]) -> Vec<Vec<u8>> {
    let mut store: Vec<Vec<u8>> = Vec::new();
    extract_words_for_string(text, &mut store);
    store
}

fn ngrams(text: &[u8], n: usize) -> Vec<Vec<u8>> {
    let mut store: Vec<Vec<u8>> = Vec::new();
    extract_ngrams_for_string(text, n, &mut store);
    store
}

fn list(items: &[&str]) -> Vec<Vec<u8>> {
    items.iter().map(|s| s.as_bytes().to_vec()).collect()
}

#[test]
fn ngrams_of_hello() {
    assert_eq!(ngrams(b"hello", 3), list(&["hel", "ell", "llo"]));
}

#[test]
fn words_of_the_quick_fox() {
    assert_eq!(words(b"the quick fox"), list(&["the", "quick", "fox"]));
}

#[test]
fn words_are_appended_to_the_store() {
    let mut store = list(&["kept"]);
    extract_words_for_string(b"a b", &mut store);
    assert_eq!(store, list(&["kept", "a", "b"]));
}

#[test]
fn words_split_on_every_whitespace_byte() {
    assert_eq!(words(b"a\tb\nc\rd\x0be\x0cf g"), list(&["a", "b", "c", "d", "e", "f", "g"]));
}

#[test]
fn words_keep_empty_tokens() {
    assert_eq!(words(b""), list(&[""]));
    assert_eq!(words(b" "), list(&["", ""]));
    assert_eq!(words(b"a  b"), list(&["a", "", "b"]));
    assert_eq!(words(b" a "), list(&["", "a", ""]));
}

#[test]
fn ngrams_window_has_the_length_asked_for() {
    assert_eq!(ngrams(b"hello", 2), list(&["he", "el", "ll", "lo"]));
    assert_eq!(ngrams(b"hello", 4), list(&["hell", "ello"]));
}

#[test]
fn ngrams_keep_short_tokens_whole() {
    assert_eq!(ngrams(b"hi", 3), list(&["hi"]));
    assert_eq!(ngrams(b"hey", 3), list(&["hey"]));
    assert_eq!(ngrams(b"", 3), list(&[""]));
}

#[test]
fn ngrams_of_each_token_in_order() {
    assert_eq!(ngrams(b"abcd xy efg", 3), list(&["abc", "bcd", "xy", "efg"]));
}

#[test]
fn ngrams_of_length_zero_are_empty_windows() {
    assert_eq!(ngrams(b"ab", 0), list(&["", "", ""]));
    assert_eq!(ngrams(b"", 0), list(&[""]));
}

#[test]
fn ngrams_are_appended_to_the_store() {
    let mut store = list(&["kept"]);
    extract_ngrams_for_string(b"abcd", 3, &mut store);
    assert_eq!(store, list(&["kept", "abc", "bcd"]));
}
