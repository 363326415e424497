use std::io::ErrorKind;
use wtx::misc::read_until::{read_step, ReadStep};
use wtx::misc::{BytesStream, Stream};

#[test]
fn bytes_stream_hands_out_what_was_written_in_order() {
    let mut stream = BytesStream::new();
    stream.write_all(&[1, 2, 3]).unwrap();
    stream.write_all(&[4, 5]).unwrap();
    assert_eq!(stream.len(), 5);
    let mut buf = [0; 2];
    assert_eq!(stream.read(&mut buf), Ok(2));
    assert_eq!(buf, [1, 2]);
    assert_eq!(stream.len(), 3);
    let mut rest = [9; 4];
    assert_eq!(stream.read(&mut rest), Ok(3));
    assert_eq!(rest, [3, 4, 5, 9]);
    assert_eq!(stream.len(), 0);
    assert_eq!(stream.read(&mut rest), Ok(0));
    assert_eq!(rest, [3, 4, 5, 9]);
}

#[test]
fn bytes_stream_read_of_exactly_what_waits() {
    let mut stream = BytesStream::new();
    stream.write_all(&[7, 8]).unwrap();
    let mut buf = [0; 2];
    assert_eq!(stream.read(&mut buf), Ok(2));
    assert_eq!(buf, [7, 8]);
    assert_eq!(stream.len(), 0);
    stream.write_all(&[1]).unwrap();
    assert_eq!(stream.read(&mut buf), Ok(1));
    assert_eq!(buf, [1, 8]);
}

#[test]
fn bytes_stream_clear_drops_what_waits() {
    let mut stream = BytesStream::new();
    stream.write_all(&[1, 2, 3]).unwrap();
    let mut buf = [0; 1];
    stream.read(&mut buf).unwrap();
    stream.clear();
    assert_eq!(stream.len(), 0);
    assert_eq!(stream.read(&mut buf), Ok(0));
}

#[test]
fn bytes_stream_read_into_nothing() {
    let mut stream = BytesStream::new();
    stream.write_all(&[1]).unwrap();
    assert_eq!(stream.read(&mut []), Ok(0));
    assert_eq!(stream.len(), 1);
}

#[test]
fn unit_stream_reads_nothing_and_swallows_everything() {
    let mut stream = ();
    let mut buf = [5; 3];
    assert_eq!(stream.read(&mut buf), Ok(0));
    assert_eq!(buf, [5; 3]);
    assert_eq!(stream.write_all(&[1, 2]), Ok(()));
}

#[test]
fn a_borrowed_stream_is_a_stream() {
    fn pull<S: Stream>(mut stream: S, buf: &mut [u8]) -> usize {
        stream.read(buf).unwrap()
    }
    let mut stream = BytesStream::new();
    stream.write_all(&[4, 2]).unwrap();
    let mut buf = [0; 1];
    assert_eq!(pull(&mut stream, &mut buf), 1);
    assert_eq!(buf, [4]);
    assert_eq!(stream.len(), 1);
}

#[test]
fn the_default_stream_is_empty() {
    let mut stream = BytesStream::default();
    assert_eq!(stream.len(), 0);
    let mut buf = [7; 3];
    assert_eq!(stream.read(&mut buf), Ok(0));
    assert_eq!(buf, [7; 3]);
}

#[test]
fn reading_goes_on_until_enough_bytes_are_there() {
    assert_eq!(read_step(0, 5, 5, Ok(5)), ReadStep::Done(5));
    assert_eq!(read_step(2, 5, 1, Ok(9)), ReadStep::Done(11));
    assert_eq!(read_step(2, 5, 3, Ok(2)), ReadStep::More(4, 2));
    assert_eq!(read_step(2, 5, 3, Ok(0)), ReadStep::More(2, 2));
    assert_eq!(read_step(4, 5, 2, Ok(0)), ReadStep::More(4, 1));
}

#[test]
fn a_stream_that_stays_behind_is_given_up_on_its_last_turn() {
    assert_eq!(read_step(4, 5, 1, Ok(0)), ReadStep::GivenUp(4));
    assert_eq!(read_step(1, 5, 1, Ok(3)), ReadStep::GivenUp(4));
    assert_eq!(read_step(1, 5, 0, Ok(3)), ReadStep::GivenUp(4));
}

#[test]
fn a_failure_of_the_stream_ends_the_reading() {
    assert_eq!(read_step(1, 5, 4, Err(ErrorKind::BrokenPipe)), ReadStep::Failed(ErrorKind::BrokenPipe));
    assert_eq!(read_step(9, 5, 1, Err(ErrorKind::TimedOut)), ReadStep::Failed(ErrorKind::TimedOut));
}
