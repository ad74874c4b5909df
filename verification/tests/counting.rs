use wordcount::counter::{process, Counter};

#[test]
fn empty_input_all_zero() {
    let o = process(&[], None);
    assert_eq!(o.bytes, 0);
    assert_eq!(o.lines, 0);
    assert_eq!(o.words, 0);
    assert_eq!(o.chars, 0);
    assert!(o.filename.is_none());
}

#[test]
fn hello_world_counts() {
    let o = process(b"hello world\n", None);
    assert_eq!(o.lines, 1);
    assert_eq!(o.words, 2);
    assert_eq!(o.bytes, 12);
}

#[test]
fn no_trailing_newline_still_counts_words() {
    let o = process(b"ab cd", None);
    assert_eq!(o.bytes, 5);
    assert_eq!(o.lines, 0);
    assert_eq!(o.words, 2);
}

#[test]
fn consecutive_whitespace_single_boundary() {
    let o = process(b"a   b", None);
    assert_eq!(o.words, 2);
    assert_eq!(o.bytes, 5);
    assert_eq!(o.lines, 0);
}

#[test]
fn lone_newline() {
    let o = process(b"\n", None);
    assert_eq!(o.bytes, 1);
    assert_eq!(o.lines, 1);
    assert_eq!(o.words, 0);
}

#[test]
fn tabs_separate_words() {
    let o = process(b"a\tb\tc", None);
    assert_eq!(o.words, 3);
    assert_eq!(o.lines, 0);
    assert_eq!(o.bytes, 5);
}

#[test]
fn pure_whitespace_has_no_words() {
    let o = process(b" \t\n ", None);
    assert_eq!(o.words, 0);
    assert_eq!(o.lines, 1);
    assert_eq!(o.bytes, 4);
}

#[test]
fn carriage_return_is_not_a_separator() {
    let o = process(b"a\rb", None);
    assert_eq!(o.words, 1);
    assert_eq!(o.lines, 0);
    assert_eq!(o.bytes, 3);
}

#[test]
fn non_ascii_bytes_are_opaque_word_bytes() {
    let o = process(&[0xC3, 0xA9, 0x20, 0xC3, 0xA9], None);
    assert_eq!(o.words, 2);
    assert_eq!(o.bytes, 5);
}

#[test]
fn bytes_count_every_byte() {
    let o = process(b" a\n\tb  c\n\n", None);
    assert_eq!(o.bytes, 10);
    assert_eq!(o.lines, 3);
    assert_eq!(o.words, 3);
}

#[test]
fn trailing_whitespace_never_adds_a_word() {
    let base = process(b"ab cd", None);
    for sep in [b' ', b'\t', b'\n'] {
        let mut data = b"ab cd".to_vec();
        data.push(sep);
        let extended = process(&data, None);
        assert_eq!(extended.words, base.words);
    }
}

#[test]
fn streaming_chunks_match_whole_input() {
    let whole = process(b"one two\nthree four\n", Some(String::from("name")));
    let mut counter = Counter::new();
    counter.update(b"one tw");
    counter.update(b"o\nthree ");
    counter.update(b"four\n");
    let streamed = counter.finish(Some(String::from("name")));
    assert_eq!(streamed.bytes, whole.bytes);
    assert_eq!(streamed.lines, whole.lines);
    assert_eq!(streamed.words, whole.words);
    assert_eq!(streamed.chars, whole.chars);
    assert_eq!(streamed.filename.as_deref(), Some("name"));
}

#[test]
fn char_count_is_always_zero() {
    let o = process(b"hello world\n", None);
    assert_eq!(o.chars, 0);
}

#[test]
fn word_spanning_chunk_boundary_counted_once() {
    let mut counter = Counter::new();
    counter.update(b"hel");
    counter.update(b"lo");
    let o = counter.finish(None);
    assert_eq!(o.words, 1);
    assert_eq!(o.bytes, 5);
}
