use wtx::misc::{Rng, Xorshift64};

fn reference(mut value: u64) -> u64 {
    value ^= value << 13;
    value ^= value >> 7;
    value ^= value << 17;
    value
}

#[test]
fn xorshift64_follows_the_three_shifts() {
    let mut rng = Xorshift64::from(1);
    assert_eq!(rng.u64(), 1082269761);
    assert_eq!(rng.u64(), reference(1082269761));
    let mut other = Xorshift64::from(0x1234_5678_9abc_def0);
    assert_eq!(other.u64(), reference(0x1234_5678_9abc_def0));
}

#[test]
fn xorshift64_never_starts_from_zero() {
    let mut rng = Xorshift64::from(0);
    assert_ne!(rng.u64(), 0);
}

#[test]
fn u8_4_takes_the_low_bytes_of_the_next_number() {
    let mut rng = Xorshift64::from(1);
    assert_eq!(rng.u8_4(), 1082269761u32.to_le_bytes());
}

#[test]
fn fill_slice_draws_one_number_for_each_byte() {
    let mut rng = Xorshift64::from(42);
    let mut bytes = [0; 3];
    rng.fill_slice(&mut bytes);
    let first = reference(42);
    let second = reference(first);
    let third = reference(second);
    assert_eq!(bytes, [first as u8, second as u8, third as u8]);
    assert_eq!(rng.u64(), reference(third));
}
