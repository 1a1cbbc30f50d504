use tac::lines::reverse_lines;
use tac::spool::{ByteSource, SpoolAction, Spooler, MAX_BUF_SIZE};

fn has_identifier_shape(name: &str) -> bool {
    name.len() == 36
        && name.chars().enumerate().all(|(i, c)| match i {
            8 | 13 | 18 | 23 => c == '-',
            _ => matches!(c, '0'..='9' | 'a'..='f'),
        })
}

#[test]
fn limit_is_four_mebibytes() {
    assert_eq!(MAX_BUF_SIZE, 4 * 1024 * 1024);
}

#[test]
fn nothing_taken_in_is_an_empty_buffer() {
    assert_eq!(Spooler::new().finish(), ByteSource::InMemory(Vec::new()));
}

#[test]
fn small_input_stays_in_memory() {
    let mut spooler = Spooler::new();
    assert_eq!(spooler.push(b"one\n"), SpoolAction::Hold);
    assert_eq!(spooler.push(b"two\n"), SpoolAction::Hold);
    assert_eq!(spooler.push(b""), SpoolAction::Hold);
    let source = spooler.finish();
    assert!(!source.delete_on_exit());
    assert_eq!(source, ByteSource::InMemory(b"one\ntwo\n".to_vec()));
}

#[test]
fn exactly_the_limit_does_not_spill() {
    let mut spooler = Spooler::new();
    assert_eq!(spooler.push(&vec![b'x'; MAX_BUF_SIZE - 1]), SpoolAction::Hold);
    assert_eq!(spooler.push(b"\n"), SpoolAction::Hold);
    match spooler.finish() {
        ByteSource::InMemory(bytes) => assert_eq!(bytes.len(), MAX_BUF_SIZE),
        ByteSource::TempFile => panic!("spilled at the limit"),
    }
}

#[test]
fn one_byte_over_the_limit_spills() {
    let mut spooler = Spooler::new();
    assert_eq!(spooler.push(&vec![b'x'; MAX_BUF_SIZE]), SpoolAction::Hold);
    match spooler.push(b"\n") {
        SpoolAction::Spill { name, bytes } => {
            assert!(has_identifier_shape(&name));
            assert_eq!(bytes.len(), MAX_BUF_SIZE + 1);
            assert_eq!(bytes[MAX_BUF_SIZE], b'\n');
            assert!(bytes[..MAX_BUF_SIZE].iter().all(|b| *b == b'x'));
        }
        other => panic!("expected a spill, got {:?}", matches!(other, SpoolAction::Hold)),
    }
    let source = spooler.finish();
    assert!(source.delete_on_exit());
    assert_eq!(source, ByteSource::TempFile);
}

#[test]
fn a_single_chunk_over_the_limit_spills_at_once() {
    let mut spooler = Spooler::new();
    let chunk = vec![b'y'; MAX_BUF_SIZE + 1];
    match spooler.push(&chunk) {
        SpoolAction::Spill { bytes, .. } => assert_eq!(bytes, chunk),
        _ => panic!("expected a spill"),
    }
}

#[test]
fn after_a_spill_every_chunk_is_appended() {
    let mut spooler = Spooler::new();
    assert!(matches!(spooler.push(&vec![b'z'; MAX_BUF_SIZE + 1]), SpoolAction::Spill { .. }));
    assert_eq!(spooler.push(b"more\n"), SpoolAction::Append);
    assert_eq!(spooler.push(b""), SpoolAction::Append);
    assert_eq!(spooler.push(&vec![b'z'; MAX_BUF_SIZE + 1]), SpoolAction::Append);
    assert_eq!(spooler.finish(), ByteSource::TempFile);
}

#[test]
fn spill_names_have_the_hyphenated_shape_and_differ() {
    let mut first = Spooler::new();
    let mut second = Spooler::new();
    let chunk = vec![b'n'; MAX_BUF_SIZE + 1];
    let (a, b) = match (first.push(&chunk), second.push(&chunk)) {
        (SpoolAction::Spill { name: a, .. }, SpoolAction::Spill { name: b, .. }) => (a, b),
        _ => panic!("expected two spills"),
    };
    assert!(has_identifier_shape(&a));
    assert!(has_identifier_shape(&b));
    assert_ne!(a, b);
}

fn lines_of_total_length(total: usize) -> Vec<Vec<u8>> {
    let mut chunks = Vec::new();
    let mut left = total;
    let mut n: usize = 0;
    while left > 0 {
        let len = left.min(65536);
        let mut chunk = vec![b'a' + (n % 26) as u8; len];
        chunk[len - 1] = b'\n';
        chunks.push(chunk);
        left -= len;
        n += 1;
    }
    chunks
}

fn content_after(chunks: &[Vec<u8>]) -> (Vec<u8>, bool) {
    let mut spooler = Spooler::new();
    let mut file: Vec<u8> = Vec::new();
    for chunk in chunks {
        match spooler.push(chunk) {
            SpoolAction::Hold => {}
            SpoolAction::Spill { bytes, .. } => file = bytes,
            SpoolAction::Append => file.extend_from_slice(chunk),
        }
    }
    match spooler.finish() {
        ByteSource::InMemory(bytes) => (bytes, false),
        ByteSource::TempFile => (file, true),
    }
}

#[test]
fn both_paths_hold_the_chunks_one_after_the_other() {
    for (total, spills) in [(MAX_BUF_SIZE, false), (MAX_BUF_SIZE + 1, true), (70000, false)] {
        let chunks = lines_of_total_length(total);
        let (content, spilled) = content_after(&chunks);
        assert_eq!(spilled, spills);
        assert_eq!(content, chunks.concat());
    }
}

#[test]
fn both_paths_give_the_same_reversal() {
    let chunks = lines_of_total_length(MAX_BUF_SIZE + 1);
    let (content, spilled) = content_after(&chunks);
    assert!(spilled);
    assert_eq!(reverse_lines(&content), reverse_lines(&chunks.concat()));
    let mut expected = Vec::new();
    for chunk in chunks.iter().rev() {
        expected.extend_from_slice(chunk);
    }
    assert_eq!(reverse_lines(&content), expected);
}
