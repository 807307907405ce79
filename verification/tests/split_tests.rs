use g_flite::split::{split, tokenize, SplitError};

#[test]
fn boundary_five_words_two_chunks() {
    let r = split(b"the quick brown fox jumps", 2).unwrap();
    assert_eq!(r.len(), 2);
    assert_eq!(r[0].index, 0);
    assert_eq!(r[0].text, b"the quick brown ".to_vec());
    assert_eq!(r[1].index, 1);
    assert_eq!(r[1].text, b"fox jumps ".to_vec());
}

#[test]
fn empty_text_fails() {
    assert!(matches!(split(b"", 2), Err(SplitError::NoWords)));
}

#[test]
fn whitespace_only_fails() {
    assert!(matches!(split(b"  \t\n  ", 3), Err(SplitError::NoWords)));
}

#[test]
fn degenerate_chunk_count_fails() {
    // one word over six chunks: the balanced size rounds to zero
    assert!(matches!(split(b"hello", 6), Err(SplitError::DegenerateChunkCount)));
}

#[test]
fn words_preserved_in_order() {
    let text = b"alpha beta  gamma\tdelta epsilon zeta eta";
    let r = split(text, 3).unwrap();
    let mut joined: Vec<u8> = Vec::new();
    for c in &r {
        joined.extend_from_slice(&c.text);
    }
    assert_eq!(tokenize(&joined), tokenize(text));
}

#[test]
fn split_is_deterministic() {
    let a = split(b"one two three four five six", 4).unwrap();
    let b = split(b"one two three four five six", 4).unwrap();
    assert_eq!(a, b);
}

#[test]
fn leftover_words_form_extra_chunk() {
    // seven words in chunks of round(7/3) = 2 leave a fourth chunk
    let r = split(b"a b c d e f g", 3).unwrap();
    assert_eq!(r.len(), 4);
    assert_eq!(r[0].text, b"a b ".to_vec());
    assert_eq!(r[3].text, b"g ".to_vec());
}

#[test]
fn single_chunk_keeps_everything() {
    let r = split(b"just three words", 1).unwrap();
    assert_eq!(r.len(), 1);
    assert_eq!(r[0].text, b"just three words ".to_vec());
}

#[test]
fn tokenize_collapses_whitespace() {
    let ws = tokenize(b" one\t two \n three ");
    assert_eq!(ws, vec![b"one".to_vec(), b"two".to_vec(), b"three".to_vec()]);
}
