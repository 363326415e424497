use wtx::misc::PartitionedFilledBuffer;
use wtx::Error;

fn indices(pfb: &PartitionedFilledBuffer) -> (usize, usize, usize) {
    (pfb.antecedent_end_idx(), pfb.current_end_idx(), pfb.following_end_idx())
}

fn filled(bytes: &[u8]) -> PartitionedFilledBuffer {
    let mut pfb = PartitionedFilledBuffer::new();
    pfb.expand_buffer(bytes.len()).unwrap();
    pfb.following_trail_mut().copy_from_slice(bytes);
    pfb
}

#[test]
fn new_buffer_has_three_empty_zones() {
    let pfb = PartitionedFilledBuffer::new();
    assert_eq!(indices(&pfb), (0, 0, 0));
    assert_eq!(pfb.capacity(), 0);
    assert!(pfb.antecedent().is_empty());
    assert!(pfb.current().is_empty());
    assert!(pfb.following().is_empty());
    assert!(!pfb.has_following());
}

#[test]
fn with_capacity_opens_zeroed_room() {
    let mut pfb = PartitionedFilledBuffer::with_capacity(4).unwrap();
    assert_eq!(pfb.capacity(), 4);
    assert_eq!(pfb.buffer(), &[0, 0, 0, 0]);
    assert_eq!(pfb.following_trail_mut().len(), 4);
    assert_eq!(indices(&pfb), (0, 0, 0));
}

#[test]
fn set_indices_partitions_the_bytes() {
    let mut pfb = filled(&[1, 2, 3, 4, 5, 6]);
    pfb.set_indices(1, 2, 3).unwrap();
    assert_eq!(indices(&pfb), (1, 3, 6));
    assert_eq!(pfb.antecedent(), &[1]);
    assert_eq!(pfb.current(), &[2, 3]);
    assert_eq!(pfb.current_range(), 1..3);
    assert_eq!(pfb.following(), &[4, 5, 6]);
    assert_eq!(pfb.following_len(), 3);
    assert!(pfb.has_following());
    assert_eq!(pfb.following_trail(), &[4, 5, 6]);
}

#[test]
fn set_indices_refuses_bounds_behind_the_bytes() {
    let mut pfb = filled(&[1, 2, 3, 4]);
    pfb.set_indices(1, 1, 1).unwrap();
    assert_eq!(pfb.set_indices(2, 2, 1), Err(Error::UnexpectedBufferState));
    assert_eq!(indices(&pfb), (1, 2, 3));
    assert_eq!(pfb.buffer(), &[1, 2, 3, 4]);
    assert_eq!(pfb.set_indices(5, 0, 0), Err(Error::UnexpectedBufferState));
    assert_eq!(pfb.set_indices(usize::MAX, 1, 0), Err(Error::UnexpectedBufferState));
    assert_eq!(pfb.set_indices(1, usize::MAX, usize::MAX), Err(Error::UnexpectedBufferState));
    assert_eq!(indices(&pfb), (1, 2, 3));
    assert_eq!(pfb.set_indices(4, 0, 0), Ok(()));
    assert_eq!(indices(&pfb), (4, 4, 4));
}

#[test]
fn indices_stay_ordered_through_every_operation() {
    let mut pfb = PartitionedFilledBuffer::new();
    let check = |pfb: &PartitionedFilledBuffer| {
        let (a, c, f) = indices(pfb);
        assert!(a <= c && c <= f && f <= pfb.capacity());
    };
    check(&pfb);
    pfb.reserve(3).unwrap();
    check(&pfb);
    pfb.expand_following(5).unwrap();
    check(&pfb);
    pfb.set_indices(0, 2, 2).unwrap();
    check(&pfb);
    let _ = pfb.set_indices(3, 3, 3);
    check(&pfb);
    pfb.set_indices(2, 2, 0).unwrap();
    check(&pfb);
    pfb.clear_if_following_is_empty();
    check(&pfb);
    pfb.expand_following(1).unwrap();
    check(&pfb);
    pfb.clear();
    check(&pfb);
}

#[test]
fn expand_following_opens_room_behind_the_bytes_read_ahead() {
    let mut pfb = filled(&[1, 2, 3]);
    pfb.set_indices(0, 1, 2).unwrap();
    pfb.expand_following(2).unwrap();
    assert_eq!(pfb.len(), 5);
    assert_eq!(pfb.buffer(), &[1, 2, 3, 0, 0]);
    assert_eq!(indices(&pfb), (0, 1, 3));
    pfb.expand_following(1).unwrap();
    assert_eq!(pfb.len(), 5);
    assert_eq!(pfb.expand_following(usize::MAX), Err(Error::AllocationError));
    assert_eq!(pfb.len(), 5);
}

#[test]
fn reserve_grows_the_capacity_and_nothing_else() {
    let mut pfb = filled(&[1, 2]);
    pfb.reserve(10).unwrap();
    assert!(pfb.capacity() >= 12);
    assert_eq!(pfb.len(), 2);
    assert_eq!(pfb.buffer(), &[1, 2]);
    let cap = pfb.capacity();
    pfb.reserve(1).unwrap();
    assert_eq!(pfb.capacity(), cap);
}

#[test]
fn following_trail_mut_writes_behind_the_current_message() {
    let mut pfb = filled(&[1, 2, 3, 4]);
    pfb.set_indices(0, 2, 0).unwrap();
    pfb.following_trail_mut()[0] = 9;
    assert_eq!(pfb.buffer(), &[1, 2, 9, 4]);
    assert_eq!(indices(&pfb), (0, 2, 2));
}

#[test]
fn clear_if_following_is_empty_keeps_bytes_that_wait() {
    let mut pfb = filled(&[1, 2, 3]);
    pfb.set_indices(1, 1, 1).unwrap();
    pfb.clear_if_following_is_empty();
    assert_eq!(indices(&pfb), (1, 2, 3));
    pfb.set_indices(2, 1, 0).unwrap();
    pfb.clear_if_following_is_empty();
    assert_eq!(indices(&pfb), (0, 0, 0));
    assert_eq!(pfb.len(), 0);
    assert_eq!(pfb.capacity(), 3);
}
