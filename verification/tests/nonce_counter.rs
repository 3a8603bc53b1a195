use crypto::NonceSequence;

#[test]
fn advance_increments_the_last_byte() {
    let mut nonce = NonceSequence::new(vec![0u8; 12]);
    nonce.advance();
    assert_eq!(
        nonce.current().as_slice(),
        &[0, 0, 0, 0, 0, 0, 0, 0, 0, 0, 0, 1]
    );
    nonce.advance();
    assert_eq!(
        nonce.current().as_slice(),
        &[0, 0, 0, 0, 0, 0, 0, 0, 0, 0, 0, 2]
    );
}

#[test]
fn advance_carries_into_the_next_byte() {
    let mut nonce = NonceSequence::new(vec![0, 0, 0, 0, 0, 0, 0, 0, 0, 0, 1, 255]);
    nonce.advance();
    assert_eq!(
        nonce.current().as_slice(),
        &[0, 0, 0, 0, 0, 0, 0, 0, 0, 0, 2, 0]
    );
}

#[test]
fn advance_carries_through_a_run_of_maximums() {
    let mut nonce = NonceSequence::new(vec![0, 0, 0, 0, 0, 0, 0, 0, 7, 255, 255, 255]);
    nonce.advance();
    assert_eq!(
        nonce.current().as_slice(),
        &[0, 0, 0, 0, 0, 0, 0, 0, 8, 0, 0, 0]
    );
}

#[test]
fn advance_wraps_all_maximums_to_zero() {
    let mut nonce = NonceSequence::new(vec![255u8; 12]);
    nonce.advance();
    assert_eq!(nonce.current().as_slice(), &[0u8; 12]);
}
