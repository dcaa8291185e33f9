use anytls::error::{ErrorKind, IoError};
use anytls::pipe::{PipeInner, ReadStep};

fn data(step: ReadStep) -> Vec<u8> {
    match step {
        ReadStep::Data(d) => d,
        other => panic!("unexpected step {other:?}"),
    }
}

#[test]
fn reads_come_in_the_order_of_writes() {
    let mut pipe = PipeInner::new();
    assert_eq!(pipe.write(b"hello").unwrap(), 5);
    assert_eq!(pipe.write(b"world").unwrap(), 5);
    assert_eq!(data(pipe.read(3)), b"hel");
    assert_eq!(data(pipe.read(10)), b"lo");
    assert_eq!(data(pipe.read(10)), b"world");
    assert!(matches!(pipe.read(10), ReadStep::Pending));
}

#[test]
fn one_read_waits_at_a_time() {
    let mut pipe = PipeInner::new();
    assert!(matches!(pipe.read(4), ReadStep::Pending));
    match pipe.read(4) {
        ReadStep::Failed(e) => {
            assert_eq!((e.kind, e.message.as_str()), (ErrorKind::BrokenPipe, "Pipe reader already in use"));
        }
        other => panic!("unexpected step {other:?}"),
    }
    pipe.write(b"abcdef").unwrap();
    assert_eq!(data(pipe.resume_read(4)), b"abcd");
    assert_eq!(data(pipe.read(4)), b"ef");
}

#[test]
fn closed_pipe_is_read_empty_first() {
    let mut pipe = PipeInner::new();
    pipe.write(b"left").unwrap();
    pipe.close_with_error(Some(IoError::other("remote: gone")));
    let refused = pipe.write(b"more").unwrap_err();
    assert_eq!((refused.kind, refused.message.as_str()), (ErrorKind::BrokenPipe, "Pipe closed"));
    assert_eq!(data(pipe.read(10)), b"left");
    match pipe.read(10) {
        ReadStep::Failed(e) => assert_eq!((e.kind, e.message.as_str()), (ErrorKind::Other, "remote: gone")),
        other => panic!("unexpected step {other:?}"),
    }
}

#[test]
fn closing_the_writing_side_is_a_plain_end() {
    let mut pipe = PipeInner::new();
    pipe.close_write_with_error(Some(IoError::other("ignored")));
    assert_eq!(data(pipe.read(1)), b"");
}

#[test]
fn finished_stream_leaves_one_end() {
    let mut pipe = PipeInner::new();
    pipe.write(b"a").unwrap();
    pipe.finish_stream(None);
    pipe.write(b"b").unwrap();
    assert_eq!(data(pipe.read(9)), b"a");
    assert_eq!(data(pipe.read(9)), b"");
    assert_eq!(data(pipe.read(9)), b"b");
}

#[test]
fn closed_pipes_are_read_to_the_end_in_buffers_of_any_size() {
    let chunks: [&[u8]; 4] = [b"a", b"bcdef", b"gh", b"ijklmnop"];
    for size in 1..=20 {
        for closed_after in 0..=16 {
            for error in [None, Some(IoError::new(ErrorKind::InvalidData, "over"))] {
                let mut pipe = PipeInner::new();
                for chunk in chunks {
                    assert_eq!(pipe.write(chunk).unwrap(), chunk.len());
                }
                let mut read = Vec::new();
                let mut reads = 0;
                while read.len() < 16 {
                    if reads == closed_after {
                        pipe.close_with_error(error.clone());
                    }
                    let got = data(pipe.read(size));
                    assert!(!got.is_empty() && got.len() <= size);
                    read.extend_from_slice(&got);
                    reads += 1;
                }
                assert!(reads <= 16);
                assert_eq!(read, b"abcdefghijklmnop");
                pipe.close_with_error(error.clone());
                assert!(pipe.write(b"late").is_err());
                for _ in 0..2 {
                    match (pipe.read(size), &error) {
                        (ReadStep::Data(got), None) => assert!(got.is_empty()),
                        (ReadStep::Failed(got), Some(e)) => assert_eq!(got.kind, e.kind),
                        (other, _) => panic!("unexpected step {other:?}"),
                    }
                }
            }
        }
    }
}
