use tac::lines::{line_spans, reverse_each, reverse_lines, span_bytes, LineSpan, Scanner, NEWLINE};

fn spans(input: &[u8]) -> Vec<(usize, usize)> {
    line_spans(input).iter().map(|span| (span.start, span.end)).collect()
}

#[test]
fn newline_is_line_feed() {
    assert_eq!(NEWLINE, b'\n');
}

#[test]
fn reverses_terminated_lines() {
    assert_eq!(reverse_lines(b"one\ntwo\nthree\n"), b"three\ntwo\none\n".to_vec());
}

#[test]
fn unterminated_last_line_comes_first_without_newline() {
    assert_eq!(reverse_lines(b"one\ntwo\nthree"), b"threetwo\none\n".to_vec());
}

#[test]
fn empty_input_gives_empty_output() {
    assert_eq!(reverse_lines(b""), Vec::<u8>::new());
    assert_eq!(spans(b""), vec![]);
}

#[test]
fn single_newline_is_kept() {
    assert_eq!(reverse_lines(b"\n"), b"\n".to_vec());
    assert_eq!(spans(b"\n"), vec![(0, 1)]);
}

#[test]
fn single_unterminated_line_is_kept() {
    assert_eq!(reverse_lines(b"abc"), b"abc".to_vec());
    assert_eq!(spans(b"abc"), vec![(0, 3)]);
}

#[test]
fn blank_lines_are_lines() {
    assert_eq!(reverse_lines(b"a\n\nb\n"), b"b\n\na\n".to_vec());
    assert_eq!(spans(b"a\n\nb\n"), vec![(3, 5), (2, 3), (0, 2)]);
    assert_eq!(reverse_lines(b"\n\n\n"), b"\n\n\n".to_vec());
    assert_eq!(spans(b"\n\n"), vec![(1, 2), (0, 1)]);
}

#[test]
fn spans_come_last_line_first() {
    assert_eq!(spans(b"one\ntwo\nthree\n"), vec![(8, 14), (4, 8), (0, 4)]);
    assert_eq!(spans(b"one\ntwo\nthree"), vec![(8, 13), (4, 8), (0, 4)]);
}

#[test]
fn spans_tile_the_input() {
    let input = b"alpha\n\nbeta\ngamma delta\n\n\nlast";
    let found = line_spans(input);
    assert_eq!(found[0].end, input.len());
    assert_eq!(found[found.len() - 1].start, 0);
    for pair in found.windows(2) {
        assert_eq!(pair[1].end, pair[0].start);
    }
    for span in &found {
        assert!(span.start < span.end);
        assert!(span.start == 0 || input[span.start - 1] == b'\n');
        assert!(!input[span.start..span.end - 1].contains(&b'\n'));
    }
}

#[test]
fn spans_in_document_order_give_the_input_back() {
    for input in [&b"one\ntwo\nthree\n"[..], b"one\ntwo\nthree", b"", b"\n", b"x", b"\n\nx\n\n"] {
        let mut joined = Vec::new();
        for span in line_spans(input).iter().rev() {
            joined.extend_from_slice(span_bytes(input, *span));
        }
        assert_eq!(joined, input.to_vec());
    }
}

#[test]
fn spans_in_emission_order_give_the_reversal() {
    for input in [&b"one\ntwo\nthree\n"[..], b"one\ntwo\nthree", b"", b"\n", b"\n\nx\n\ny"] {
        let mut joined = Vec::new();
        for span in line_spans(input) {
            joined.extend_from_slice(span_bytes(input, span));
        }
        assert_eq!(joined, reverse_lines(input));
    }
}

#[test]
fn scanner_hands_out_one_line_at_a_time() {
    let input = b"ab\ncd\nef";
    let mut scanner = Scanner::new(input);
    assert_eq!(scanner.next_span(), Some(LineSpan { start: 6, end: 8 }));
    assert_eq!(scanner.next_span(), Some(LineSpan { start: 3, end: 6 }));
    assert_eq!(scanner.next_span(), Some(LineSpan { start: 0, end: 3 }));
    assert_eq!(scanner.next_span(), None);
    assert_eq!(scanner.next_span(), None);
}

#[test]
fn scanner_on_empty_input_has_no_line() {
    let mut scanner = Scanner::new(b"");
    assert_eq!(scanner.next_span(), None);
}

#[test]
fn span_bytes_are_the_bytes_of_the_range() {
    let input = b"one\ntwo\n";
    assert_eq!(span_bytes(input, LineSpan { start: 4, end: 8 }), b"two\n");
    assert_eq!(span_bytes(input, LineSpan { start: 0, end: 4 }), b"one\n");
    assert_eq!(span_bytes(input, LineSpan { start: 8, end: 8 }), b"");
}

#[test]
fn reversing_twice_gives_terminated_input_back() {
    for input in [&b"one\ntwo\nthree\n"[..], b"", b"\n", b"a\n\n\nb\n", b"no newline at all"] {
        assert_eq!(reverse_lines(&reverse_lines(input)), input.to_vec());
    }
}

#[test]
fn reversing_twice_joins_an_unterminated_last_line() {
    let once = reverse_lines(b"one\ntwo\nthree");
    assert_eq!(reverse_lines(&once), b"one\nthreetwo\n".to_vec());
}

#[test]
fn reversal_keeps_the_length() {
    let input = b"a\nbb\nccc\ndddd";
    assert_eq!(reverse_lines(input).len(), input.len());
}

#[test]
fn carriage_returns_are_ordinary_bytes() {
    assert_eq!(reverse_lines(b"a\r\nb\r\n"), b"b\r\na\r\n".to_vec());
}

#[test]
fn two_inputs_are_reversed_one_after_the_other() {
    let inputs = vec![b"a\nb\n".to_vec(), b"c\nd\n".to_vec()];
    assert_eq!(reverse_each(&inputs), b"b\na\nd\nc\n".to_vec());
}

#[test]
fn nothing_separates_the_inputs() {
    let inputs = vec![b"a\nb".to_vec(), Vec::new(), b"c".to_vec()];
    assert_eq!(reverse_each(&inputs), b"ba\nc".to_vec());
    assert_eq!(reverse_each(&Vec::new()), Vec::<u8>::new());
}
