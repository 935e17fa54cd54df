use poe_copilot::input_log::{FilePoller, LineAssembler, MAX_LINE_BYTES};

#[test]
fn splits_complete_lines_and_holds_partial_tail() {
    let mut a = LineAssembler::new();
    assert_eq!(a.feed(b"hello\nwor"), vec!["hello".to_string()]);
    assert_eq!(a.feed(b"ld\n"), vec!["world".to_string()]);
    assert_eq!(a.feed(b""), Vec::<String>::new());
}

#[test]
fn strips_carriage_returns() {
    let mut a = LineAssembler::new();
    assert_eq!(a.feed(b"a\r\nb\r\n"), vec!["a".to_string(), "b".to_string()]);
}

#[test]
fn multiple_lines_in_one_chunk_and_split_across_chunks() {
    let mut a = LineAssembler::new();
    assert_eq!(a.feed(b"one\ntwo\nthr"), vec!["one".to_string(), "two".to_string()]);
    assert_eq!(a.feed(b"ee\nfour\n"), vec!["three".to_string(), "four".to_string()]);
}

#[test]
fn invalid_utf8_is_lossy_not_fatal() {
    let mut a = LineAssembler::new();
    let lines = a.feed(b"ok\xFF\xFEline\n");
    assert_eq!(lines.len(), 1);
    assert!(lines[0].starts_with("ok"));
    assert!(lines[0].ends_with("line"));
}

#[test]
fn oversized_partial_line_is_dropped_and_a_later_real_newline_still_works() {
    let mut a = LineAssembler::new();
    let junk = vec![b'x'; 200 * 1024];
    assert_eq!(a.feed(&junk), Vec::<String>::new());
    let lines = a.feed(b"\nreal\n");
    assert!(lines.iter().all(|l| l.len() < 1024), "no oversized junk line leaked through: {lines:?}");
    assert_eq!(lines.last(), Some(&"real".to_string()));
}

#[test]
fn chunk_boundaries_do_not_change_the_lines() {
    let text = b"alpha\r\nbeta\ngamma\n\ndelta";
    let mut whole = LineAssembler::new();
    let all = whole.feed(text);
    for cut in 0..text.len() {
        let mut a = LineAssembler::new();
        let mut got = a.feed(&text[..cut]);
        got.extend(a.feed(&text[cut..]));
        assert_eq!(got, all, "cut at {cut}");
    }
    assert_eq!(all, vec!["alpha", "beta", "gamma", ""]);
}

#[test]
fn a_partial_line_of_exactly_the_cap_is_kept() {
    let mut a = LineAssembler::new();
    let body = vec![b'y'; MAX_LINE_BYTES];
    assert!(a.feed(&body).is_empty());
    let lines = a.feed(b"\n");
    assert_eq!(lines.len(), 1);
    assert_eq!(lines[0].len(), MAX_LINE_BYTES);
}

#[test]
fn poller_plans_reads_within_the_cap_and_restarts_after_truncation() {
    let mut p = FilePoller::at_offset("Client.txt".to_string(), 0).with_max_poll_bytes(4);
    assert_eq!(p.plan_read(10), 4);
    assert_eq!(p.take_read(b"ab\nc"), vec!["ab".to_string()]);
    assert_eq!(p.offset(), 4);
    assert_eq!(p.plan_read(10), 4);
    assert_eq!(p.take_read(b"d\nef"), vec!["cd".to_string()]);
    assert_eq!(p.plan_read(8), 0);
    // The file shrank: read again from the start, the held "ef" discarded.
    assert_eq!(p.plan_read(3), 3);
    assert_eq!(p.offset(), 0);
    assert_eq!(p.take_read(b"zz\n"), vec!["zz".to_string()]);
    assert_eq!(p.path(), "Client.txt");
}
