use socktop::procfs::{process_ticks, split_words, total_ticks};

#[test]
fn total_ticks_sums_first_line() {
    let stat = b"cpu  10 20 30 40 50 60 70 80 90 100\ncpu0 1 2 3 4 5 6 7 8\n";
    assert_eq!(total_ticks(stat), Some(360));
    assert_eq!(total_ticks(b"cpu 1 x 2\n"), Some(3));
    assert_eq!(total_ticks(b"cpu 18446744073709551615 5"), Some(u64::MAX));
    assert_eq!(total_ticks(b"\nrest"), Some(0));
    assert_eq!(total_ticks(b""), None);
}

#[test]
fn process_ticks_after_comm() {
    let stat = b"1234 (my (odd) proc) S 1 1234 1234 0 -1 4194560 100 0 0 0 250 50 0 0 20 0 1 0 100 1000 10";
    assert_eq!(process_ticks(stat), Some(300));
    assert_eq!(process_ticks(b"1 (x) S 1 2 3"), None);
    assert_eq!(process_ticks(b"no parenthesis"), None);
    assert_eq!(process_ticks(b"1 (x)"), None);
    let bad = b"1 (x) S 1 1 1 0 -1 0 0 0 0 0 abc 50 0";
    assert_eq!(process_ticks(bad), None);
}

#[test]
fn words_split_on_ascii_whitespace() {
    let w = split_words(b"  a\tbc \n d  ", 0, 12);
    assert_eq!(w, vec![b"a".to_vec(), b"bc".to_vec(), b"d".to_vec()]);
    assert!(split_words(b"   ", 0, 3).is_empty());
    assert_eq!(split_words(b"xx yy", 1, 4), vec![b"x".to_vec(), b"y".to_vec()]);
}
