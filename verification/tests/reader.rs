use bytes::Bytes;
use maia_httpd::client::{client_step, ClientEvent, ClientStep};
use maia_httpd::drain::Drain;
use maia_httpd::reader::{Reader, ReaderError};

const SECOND: u64 = 1_000_000_000;
const SIZE: usize = 4096;

#[test]
fn starts_at_the_buffer_being_written() {
    let mut r = Reader::new(SIZE, 8, 3 * SIZE + 17, 0);
    assert_eq!(r.poll(4 * SIZE, false, 1).outcome.unwrap(), Vec::<usize>::new());
    assert_eq!(r.poll(5 * SIZE, false, 2).outcome.unwrap(), vec![3]);
}

#[test]
fn copies_up_to_two_behind() {
    let mut r = Reader::new(SIZE, 8, 0, 0);
    assert_eq!(r.poll(6 * SIZE, false, 1).outcome.unwrap(), vec![0, 1, 2, 3, 4]);
    assert_eq!(r.poll(6 * SIZE + 8, false, 2).outcome.unwrap(), Vec::<usize>::new());
    // The write pointer wraps around.
    assert_eq!(r.poll(10 * SIZE, false, 3).outcome.unwrap(), vec![5, 6, 7, 0]);
}

#[test]
fn long_run_is_contiguous() {
    let mut r = Reader::new(SIZE, 16, 0, 0);
    let mut next = 0;
    let mut address = 0;
    for i in 0..1000usize {
        address += (i * 7919) % (15 * SIZE);
        let write = (address / SIZE) % 16;
        for b in r.poll(address, false, i as u64).outcome.unwrap() {
            assert_eq!(b, next % 16);
            assert!((write + 16 - b) % 16 >= 2);
            next += 1;
        }
    }
    assert!(next > 1000);
}

#[test]
fn single_buffer_is_never_copied() {
    let mut r = Reader::new(8, 1, 0, 0);
    assert!(r.poll(24, false, 1).outcome.unwrap().is_empty());
}

#[test]
fn stall_is_reported_after_five_seconds() {
    let mut r = Reader::new(SIZE, 8, 0, 0);
    assert!(r.poll(SIZE, false, SECOND).outcome.is_ok());
    assert!(r.poll(SIZE, false, 6 * SECOND - 1).outcome.is_ok());
    assert_eq!(
        r.poll(SIZE, false, 6 * SECOND).outcome,
        Err(ReaderError::DmaStall { write_buf: 1 })
    );
}

#[test]
fn start_counts_as_an_advance() {
    let mut r = Reader::new(SIZE, 8, 0, SECOND);
    assert!(r.poll(0, false, 6 * SECOND - 1).outcome.is_ok());
    assert!(r.poll(0, false, 6 * SECOND).outcome.is_err());
}

#[test]
fn overflow_is_warned_about_once() {
    let mut r = Reader::new(SIZE, 8, 0, 0);
    assert!(r.poll(SIZE, true, 1).warn);
    assert!(!r.poll(2 * SIZE, true, 2).warn);
    assert!(!r.poll(3 * SIZE, false, 3).warn);
    assert!(r.poll(4 * SIZE, true, 4).warn);
}

#[test]
fn sustained_overflow_fails() {
    let mut r = Reader::new(SIZE, 8, 0, 0);
    for t in 1..16 {
        assert!(r.poll(t as usize * SIZE, true, t * SECOND).outcome.is_ok());
    }
    assert_eq!(
        r.poll(16 * SIZE, true, 16 * SECOND).outcome,
        Err(ReaderError::Overflow)
    );
}

#[test]
fn overflow_that_clears_starts_afresh() {
    let mut r = Reader::new(SIZE, 8, 0, 0);
    for t in 1..40u64 {
        let overflow = t % 15 != 0;
        assert!(r.poll(t as usize * SIZE, overflow, t * SECOND).outcome.is_ok());
    }
}

#[test]
fn overflow_is_reported_before_a_stall() {
    let mut r = Reader::new(SIZE, 8, 0, 0);
    assert!(r.poll(SIZE, true, 0).outcome.is_ok());
    assert_eq!(r.poll(SIZE, true, 20 * SECOND).outcome, Err(ReaderError::Overflow));
}

#[test]
fn clock_that_reads_earlier_is_no_time() {
    let mut r = Reader::new(SIZE, 8, 0, 10 * SECOND);
    assert!(r.poll(0, true, 0).outcome.is_ok());
}

#[test]
fn chunk_is_a_copy_of_the_buffer() {
    let r = Reader::new(16, 4, 0, 0);
    let mut data: Vec<u8> = (0..16).collect();
    let chunk = r.chunk(&data);
    data[0] = 99;
    assert_eq!(chunk.len() % 8, 0);
    assert_eq!(&chunk[..], &(0..16).collect::<Vec<u8>>()[..]);
}

#[test]
fn client_steps() {
    let chunk = Bytes::from(vec![1, 2, 3]);
    assert!(matches!(
        client_step(ClientEvent::Chunk(chunk)),
        ClientStep::Write(c) if c[..] == [1, 2, 3]
    ));
    assert!(matches!(client_step(ClientEvent::Written), ClientStep::Receive));
    assert!(matches!(client_step(ClientEvent::Lagged(3)), ClientStep::Receive));
    assert!(matches!(client_step(ClientEvent::Closed), ClientStep::Stop));
    assert!(matches!(client_step(ClientEvent::WriteFailed), ClientStep::Stop));
}

#[test]
fn what_is_written_is_what_arrives() {
    let arrivals = vec![
        ClientEvent::Chunk(Bytes::from(vec![1, 2])),
        ClientEvent::Lagged(7),
        ClientEvent::Chunk(Bytes::from(vec![3])),
        ClientEvent::Chunk(Bytes::new()),
        ClientEvent::Chunk(Bytes::from(vec![4, 5])),
        ClientEvent::Closed,
    ];
    let mut written = Vec::new();
    let mut stopped = false;
    for event in arrivals {
        assert!(!stopped);
        match client_step(event) {
            ClientStep::Write(c) => {
                written.extend_from_slice(&c);
                assert!(matches!(client_step(ClientEvent::Written), ClientStep::Receive));
            }
            ClientStep::Receive => {}
            ClientStep::Stop => stopped = true,
        }
    }
    assert!(stopped);
    assert_eq!(written, vec![1, 2, 3, 4, 5]);
}

#[test]
fn buffers_are_sent_after_their_invalidation() {
    let mut d = Drain::new(vec![6, 7, 0]);
    for b in [6, 7, 0] {
        assert_eq!(d.next(), Some(b));
        assert_eq!(d.next(), Some(b));
        assert_eq!(d.invalidated(Ok(())).unwrap(), Some(b));
    }
    assert_eq!(d.next(), None);
    assert_eq!(d.invalidated(Ok(())).unwrap(), None);
}

#[test]
fn buffer_that_is_not_invalidated_is_not_sent() {
    let mut d = Drain::new(vec![3, 4, 5]);
    assert_eq!(d.invalidated(Ok(())).unwrap(), Some(3));
    let e = d.invalidated(Err("ioctl".to_string())).unwrap_err();
    assert_eq!(e.buffer, 4);
    assert_eq!(e.message, "ioctl");
    assert_eq!(d.next(), Some(4));
}
