use flow_agent_core::error::{IoKind, RuntimeError};
use flow_agent_core::history::fixed_record::{
    read_fixed_record, PieceSource, ReadOutcome, RecordSource,
};
use std::io::{self, BufReader, Cursor, Read};

struct FileSource<'a, R>(&'a mut R);

impl<R: Read> RecordSource for FileSource<'_, R> {
    fn read(&mut self, wanted: usize) -> ReadOutcome {
        let mut bytes = vec![0u8; wanted];
        match self.0.read(&mut bytes) {
            Ok(0) => ReadOutcome::End,
            Ok(count) => {
                bytes.truncate(count);
                ReadOutcome::Data(bytes)
            }
            Err(error) => ReadOutcome::Failed {
                kind: match error.kind() {
                    io::ErrorKind::Other => IoKind::Other,
                    kind => panic!("unexpected kind {kind}"),
                },
                message: error.to_string(),
            },
        }
    }
}

fn read_record<const N: usize>(
    file: &mut impl Read,
    truncated: &'static str,
    diagnostic_path: &'static str,
) -> Result<Option<[u8; N]>, RuntimeError> {
    let read = read_fixed_record(&mut FileSource(file), N, truncated, diagnostic_path);
    Ok(read.record?.map(|bytes| bytes.try_into().expect("record has its width")))
}

struct ShortReader<R>(R);

impl<R: Read> Read for ShortReader<R> {
    fn read(&mut self, bytes: &mut [u8]) -> io::Result<usize> {
        let length = bytes.len().min(2);
        self.0.read(&mut bytes[..length])
    }
}

struct FailedRead;

impl Read for FailedRead {
    fn read(&mut self, _: &mut [u8]) -> io::Result<usize> {
        Err(io::Error::other("synthetic read failure"))
    }
}

#[test]
fn fixed_records_preserve_framing_across_short_reads_and_buffer_boundaries() {
    for tail in [b"".as_slice(), b"x", b"xy"] {
        let bytes = [b"abcdef".as_slice(), tail].concat();
        let mut reader = BufReader::with_capacity(5, ShortReader(Cursor::new(bytes)));
        for expected in [*b"abc", *b"def"] {
            assert_eq!(
                read_record::<3>(&mut reader, "truncated", "test index")
                    .expect("complete record reads"),
                Some(expected)
            );
        }
        let end = read_record::<3>(&mut reader, "truncated", "test index");
        if tail.is_empty() {
            assert_eq!(end.expect("record-aligned EOF succeeds"), None);
        } else {
            match end.expect_err("partial record fails") {
                RuntimeError::Protocol(text) => assert!(text.contains("truncated")),
                other => panic!("expected a truncated record, got {other:?}"),
            }
        }
    }
}

#[test]
fn fixed_record_read_error_is_not_eof_or_truncation() {
    let mut reader = BufReader::with_capacity(5, Cursor::new(b"a").chain(FailedRead));
    let error = read_record::<3>(&mut reader, "truncated", "test index")
        .expect_err("I/O failure after a partial record propagates");
    match error {
        RuntimeError::Io { path, kind, message } => {
            assert_eq!(path, "test index");
            assert_eq!(kind, IoKind::Other);
            assert_eq!(message, "synthetic read failure");
        }
        other => panic!("expected the original I/O error, got {other:?}"),
    }
}

#[test]
fn records_do_not_depend_on_the_pieces_they_come_in() {
    for piece in 1..5 {
        let mut source = PieceSource::new(b"abcdefg".to_vec(), piece);
        for expected in [b"abc".to_vec(), b"def".to_vec()] {
            let read = read_fixed_record(&mut source, 3, "truncated", "test index");
            assert_eq!(read.record.expect("the record is whole"), Some(expected));
        }
        let end = read_fixed_record(&mut source, 3, "truncated", "test index");
        assert!(matches!(end.record, Err(RuntimeError::Protocol(text)) if text == "truncated"));
    }
}

/// Hands out one byte at a time and then fails.
struct FailingSource(Vec<u8>);

impl RecordSource for FailingSource {
    fn read(&mut self, _: usize) -> ReadOutcome {
        if self.0.is_empty() {
            ReadOutcome::Failed { kind: IoKind::Interrupted, message: "gone".to_owned() }
        } else {
            ReadOutcome::Data(vec![self.0.remove(0)])
        }
    }
}

#[test]
fn a_whole_record_takes_its_bytes_and_no_more() {
    let mut source = PieceSource::new(b"abcd".to_vec(), 3);
    let read = read_fixed_record(&mut source, 2, "truncated", "test index");
    assert_eq!(read.record.expect("the record is whole"), Some(b"ab".to_vec()));
    assert_eq!(source.read, 2);
    let none = read_fixed_record(&mut source, 0, "truncated", "test index");
    assert_eq!(none.record.expect("nothing is wanted"), Some(Vec::new()));
    assert_eq!(source.read, 2);
    read_fixed_record(&mut source, 2, "truncated", "test index").record.expect("it is whole");
    let end = read_fixed_record(&mut source, 2, "truncated", "test index");
    assert_eq!(end.record.expect("the source has ended"), None);
}

#[test]
fn a_failure_behind_a_whole_record_comes_with_the_next() {
    let mut source = FailingSource(b"ab".to_vec());
    let read = read_fixed_record(&mut source, 2, "truncated", "test index");
    assert_eq!(read.record.expect("the record is whole"), Some(b"ab".to_vec()));
    match read_fixed_record(&mut source, 2, "truncated", "test index").record {
        Err(RuntimeError::Io { path, kind, message }) => {
            assert_eq!((path.as_str(), kind, message.as_str()), ("test index", IoKind::Interrupted, "gone"));
        }
        other => panic!("expected the failure, got {other:?}"),
    }
}
