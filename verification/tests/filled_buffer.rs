use wtx::misc::{BufferMode, FilledBuffer};
use wtx::Error;

#[test]
fn extend_from_slices_with_increasing_cap() {
    let mut vec = FilledBuffer::_new();
    let _ = vec._extend_from_slices(&[&[1, 2, 3][..]]).unwrap();
    assert_eq!(&*vec, &[1, 2, 3]);
}

#[test]
fn reserve_is_allocation() {
    for reserve in [0usize, 1, 7, 16, 255] {
        let mut vec = FilledBuffer::_new();
        vec._reserve(reserve).unwrap();
        assert!(vec._capacity() >= reserve);
        assert!(vec._all_mut().len() >= reserve);
        assert_eq!(vec.len(), 0);
        let len = 16usize.min(reserve);
        vec._set_len(len);
        assert_eq!(vec.len(), len);
    }
}

#[test]
fn buffer_mode_params_of_additional() {
    assert_eq!(BufferMode::Additional(3).params(4), Some((3, 7)));
    assert_eq!(BufferMode::Additional(0).params(4), Some((0, 4)));
    assert_eq!(BufferMode::Additional(1).params(usize::MAX), None);
}

#[test]
fn buffer_mode_params_of_len() {
    assert_eq!(BufferMode::Len(7).params(4), Some((3, 7)));
    assert_eq!(BufferMode::Len(4).params(4), Some((0, 4)));
    assert_eq!(BufferMode::Len(3).params(4), None);
}

#[test]
fn new_buffer_holds_nothing() {
    let vec = FilledBuffer::_new();
    assert_eq!(vec._capacity(), 0);
    assert_eq!(vec.len(), 0);
    assert!(vec._all().is_empty());
}

#[test]
fn with_capacity_is_zeroed_and_empty() {
    let vec = FilledBuffer::_with_capacity(5).unwrap();
    assert_eq!(vec._capacity(), 5);
    assert_eq!(vec.len(), 0);
    assert_eq!(vec._all(), &[0, 0, 0, 0, 0]);
    assert!(vec.as_slice().is_empty());
}

#[test]
fn from_vector_takes_the_elements_as_contents() {
    let vec = FilledBuffer::_from_vector(vec![9, 8, 7]);
    assert_eq!(vec.as_slice(), &[9, 8, 7]);
    assert_eq!(vec._capacity(), 3);
    let other = FilledBuffer::from(vec![1, 2]);
    assert_eq!(other.as_slice(), &[1, 2]);
    assert_eq!(other.into_vector(), vec![1, 2]);
}

#[test]
fn expand_moves_the_length_and_zeroes_new_room() {
    let mut vec = FilledBuffer::_new();
    vec._extend_from_slice(&[1, 2]).unwrap();
    vec._expand(BufferMode::Additional(2)).unwrap();
    assert_eq!(vec.as_slice(), &[1, 2, 0, 0]);
    vec._expand(BufferMode::Len(6)).unwrap();
    assert_eq!(vec.as_slice(), &[1, 2, 0, 0, 0, 0]);
    vec._expand(BufferMode::Len(3)).unwrap();
    assert_eq!(vec.len(), 6);
}

#[test]
fn expand_refuses_what_does_not_fit_the_address_space() {
    let mut vec = FilledBuffer::_from_vector(vec![1]);
    assert_eq!(vec._expand(BufferMode::Additional(usize::MAX)), Ok(()));
    assert_eq!(vec.as_slice(), &[1]);
    assert_eq!(vec._reserve(usize::MAX), Err(Error::AllocationError));
    assert_eq!(vec.as_slice(), &[1]);
}

#[test]
fn clear_keeps_the_memory_and_set_len_brings_it_back() {
    let mut vec = FilledBuffer::_new();
    vec._extend_from_slices(&[&[1, 2][..], &[][..], &[3][..]]).unwrap();
    assert_eq!(vec.as_slice(), &[1, 2, 3]);
    vec._clear();
    assert_eq!(vec.len(), 0);
    assert_eq!(vec._capacity(), 3);
    vec._set_len(2);
    assert_eq!(vec.as_slice(), &[1, 2]);
    vec._set_len(100);
    assert_eq!(vec.len(), 3);
}

#[test]
fn extend_overwrites_spare_room_first() {
    let mut vec = FilledBuffer::_from_vector(vec![1, 2, 3, 4]);
    vec._truncate(1);
    assert_eq!(vec._extend_from_slices(&[&[9][..], &[8][..]]), Ok(2));
    assert_eq!(vec.as_slice(), &[1, 9, 8]);
    assert_eq!(vec._all(), &[1, 9, 8, 4]);
    assert_eq!(vec._capacity(), 4);
}

#[test]
fn truncate_only_shortens() {
    let mut vec = FilledBuffer::_from_vector(vec![1, 2, 3]);
    vec._truncate(5);
    assert_eq!(vec.len(), 3);
    vec._truncate(1);
    assert_eq!(vec.as_slice(), &[1]);
    assert_eq!(vec._all(), &[1, 2, 3]);
}

#[test]
fn write_appends_and_flush_does_nothing() {
    let mut vec = FilledBuffer::_new();
    assert_eq!(vec.write(&[1, 2, 3]), Ok(3));
    assert_eq!(vec.flush(), Ok(()));
    assert_eq!(vec.as_slice(), &[1, 2, 3]);
    vec.as_slice_mut()[1] = 7;
    vec._all_mut()[0] = 6;
    assert_eq!(vec.as_slice(), &[6, 7, 3]);
}

#[test]
fn the_default_buffer_is_empty() {
    let buffer = FilledBuffer::default();
    assert_eq!(&*buffer, &[0u8; 0][..]);
    assert_eq!(buffer.len(), 0);
}
