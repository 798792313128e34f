use demucs_native::num_chunks;
use demucs_native::TRAINING_LENGTH;

#[test]
fn one_chunk_for_short_audio() {
    assert_eq!(num_chunks(0), 1);
    assert_eq!(num_chunks(1), 1);
    assert_eq!(num_chunks(TRAINING_LENGTH), 1);
}

#[test]
fn chunks_of_long_audio() {
    assert_eq!(num_chunks(TRAINING_LENGTH + 1), 2);
    assert_eq!(num_chunks(TRAINING_LENGTH + 257985), 2);
    assert_eq!(num_chunks(TRAINING_LENGTH + 257986), 3);
    assert_eq!(num_chunks(usize::MAX), (usize::MAX - TRAINING_LENGTH).div_ceil(257985) + 1);
}
