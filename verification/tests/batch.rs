use githerb::batch::{columns, unbatch};

fn pairs(v: &[(&str, &str)]) -> Vec<(String, String)> {
    v.iter()
        .map(|(a, b)| ((*a).to_owned(), (*b).to_owned()))
        .collect()
}

#[test]
fn a_notes_listing_is_two_columns_and_a_line_without_a_space_is_nothing() {
    assert_eq!(
        columns("b1 o1\nnonsense\nb2 o2 trailing\r\n"),
        pairs(&[("b1", "o1"), ("b2", "o2 trailing")])
    );
    assert!(columns("").is_empty());
}

#[test]
fn a_batch_reads_every_object_and_skips_a_missing_one() {
    let batch = b"aaa blob 5\nhello\nbbb missing\nccc blob 3\na\nb\n";
    assert_eq!(
        unbatch(batch),
        Some(pairs(&[("aaa", "hello"), ("ccc", "a\nb")]))
    );
}

#[test]
fn an_object_read_twice_keeps_what_it_was_read_with_last() {
    let batch = b"aaa blob 1\nx\naaa blob 1\ny\n";
    assert_eq!(unbatch(batch), Some(pairs(&[("aaa", "y")])));
}

#[test]
fn a_batch_cut_short_keeps_what_came_before_the_cut() {
    let batch = b"aaa blob 2\nhi\nbbb blob 10\nshort";
    assert_eq!(unbatch(batch), Some(pairs(&[("aaa", "hi")])));
    assert_eq!(unbatch(b""), Some(Vec::new()));
}

#[test]
fn content_that_is_not_utf8_is_refused() {
    let batch = b"aaa blob 2\n\xff\xfe\n";
    assert_eq!(unbatch(batch), None);
    assert_eq!(unbatch(b"\xff blob 1\nx\n"), None);
}
