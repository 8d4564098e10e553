use ser2tcp_tester::generator::{Generator, Phase, CHUNK_LEN};

/// test data generator/validator
#[test]
fn test_generator() {
    let mut gen = Generator::create("").unwrap();
    let data = gen.generate();
    assert!(gen.validate(&data));
}

fn streaming_generator() -> Generator {
    let mut gen = Generator::create("echo").unwrap();
    let marker = gen.generate();
    assert!(gen.validate(&marker));
    assert_eq!(gen.phase(), Phase::Streaming);
    gen
}

#[test]
fn handshake_sends_sync_then_waits() {
    let mut gen = Generator::create("upstream").unwrap();
    assert_eq!(gen.name(), "upstream");
    assert_eq!(gen.phase(), Phase::SendSync);
    assert_eq!(gen.generate(), b"sync".to_vec());
    assert_eq!(gen.phase(), Phase::AwaitSync);
    assert_eq!(gen.generate(), Vec::<u8>::new());
    assert_eq!(gen.generate(), Vec::<u8>::new());
    assert_eq!(gen.queued_len(), 0);
}

#[test]
fn sync_marker_must_end_the_read() {
    let mut gen = Generator::create("x").unwrap();
    gen.generate();
    assert!(gen.validate(b"syncx"));
    assert_eq!(gen.phase(), Phase::AwaitSync);
    assert!(gen.validate(b"syn"));
    assert_eq!(gen.phase(), Phase::AwaitSync);
    assert!(gen.validate(b"garbage then sync"));
    assert_eq!(gen.phase(), Phase::Streaming);
}

#[test]
fn data_before_sync_is_accepted_and_ignored() {
    let mut gen = Generator::create("x").unwrap();
    assert!(gen.validate(b"sync"));
    assert_eq!(gen.phase(), Phase::SendSync);
    assert_eq!(gen.queued_len(), 0);
}

#[test]
fn streaming_chunks_are_random_bytes_of_fixed_length() {
    let mut gen = streaming_generator();
    let a = gen.generate();
    assert_eq!(a.len(), CHUNK_LEN);
    assert_eq!(CHUNK_LEN, 1000);
    assert_eq!(gen.queued_len(), 1000);
    let b = gen.generate();
    assert_eq!(b.len(), 1000);
    assert_eq!(gen.queued_len(), 2000);
    // Two chunks of a thousand random bytes are equal with negligible chance.
    assert_ne!(a, b);
}

#[test]
fn round_trip_in_order() {
    let mut gen = streaming_generator();
    let a = gen.generate();
    let b = gen.generate();
    assert!(gen.validate(&a));
    assert_eq!(gen.queued_len(), 1000);
    assert!(gen.validate(&b));
    assert_eq!(gen.queued_len(), 0);
}

#[test]
fn reads_of_any_size_are_accepted() {
    let mut gen = streaming_generator();
    let a = gen.generate();
    let b = gen.generate();
    let mut all = a.clone();
    all.extend_from_slice(&b);
    assert!(gen.validate(&all[0..7]));
    assert!(gen.validate(&all[7..1500]));
    assert!(gen.validate(&all[1500..1500]));
    assert!(gen.validate(&all[1500..]));
    assert_eq!(gen.queued_len(), 0);
}

#[test]
fn out_of_order_data_is_rejected() {
    let mut gen = streaming_generator();
    let a = gen.generate();
    let b = gen.generate();
    if a != b {
        assert!(!gen.validate(&b));
        // the mismatching bytes are consumed all the same
        assert_eq!(gen.queued_len(), 1000);
    }
}

#[test]
fn a_corrupted_byte_is_rejected() {
    let mut gen = streaming_generator();
    let mut a = gen.generate();
    a[500] = a[500].wrapping_add(1);
    assert!(!gen.validate(&a));
    assert_eq!(gen.queued_len(), 0);
}

#[test]
fn next_chunk_uses_the_given_bytes_only_when_streaming() {
    let mut gen = Generator::create("x").unwrap();
    assert_eq!(gen.next_chunk(vec![9, 9]), b"sync".to_vec());
    assert_eq!(gen.next_chunk(vec![9, 9]), Vec::<u8>::new());
    assert!(gen.validate(b"sync"));
    assert_eq!(gen.next_chunk(vec![1, 2, 3]), vec![1, 2, 3]);
    assert_eq!(gen.next_chunk(vec![4]), vec![4]);
    assert_eq!(gen.queued_len(), 4);
    assert!(gen.validate(&[1, 2]));
    assert!(!gen.validate(&[9]));
    assert!(gen.validate(&[4]));
    assert_eq!(gen.queued_len(), 0);
}

#[test]
fn default_generator_is_unnamed_and_fresh() {
    let gen = Generator::default();
    assert_eq!(gen.name(), "");
    assert_eq!(gen.phase(), Phase::SendSync);
    assert_eq!(gen.queued_len(), 0);
}

#[test]
fn nothing_is_queued_before_streaming() {
    let mut gen = Generator::create("x").unwrap();
    for _ in 0..3 {
        gen.generate();
        assert!(gen.validate(b"noise"));
        assert_ne!(gen.phase(), Phase::Streaming);
        assert_eq!(gen.queued_len(), 0);
    }
    assert!(gen.validate(b"sync"));
    assert_eq!(gen.phase(), Phase::Streaming);
    assert_eq!(gen.queued_len(), 0);
    gen.generate();
    assert_eq!(gen.queued_len(), 1000);
    assert!(gen.validate(b""));
    assert_eq!(gen.phase(), Phase::Streaming);
}
