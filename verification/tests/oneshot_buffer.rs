use crypto::oneshot::{decrypt_bytes, encrypt_bytes, open_payload, seal_payload};
use crypto::StreamError;

const TEST_KEY_N: &[u8] = &[232, 235, 51, 124, 110, 89, 255, 191, 2, 151, 238, 194, 28, 71, 186, 164, 165, 36, 46, 145, 75, 16, 94, 140, 150, 135, 253, 205, 76, 43, 191, 17, 150, 152, 15, 145, 54, 168, 24, 62, 7, 140, 197, 205, 241, 215, 252, 252, 189, 160, 156, 174, 230, 241, 244, 171, 116, 1, 217, 244, 30, 183, 136, 60, 148, 253, 68, 207, 148, 252, 192, 253, 73, 239, 188, 21, 103, 98, 233, 43, 97, 142, 236, 19, 113, 67, 51, 101, 143, 133, 212, 183, 162, 139, 203, 144, 24, 218, 132, 18, 196, 221, 198, 158, 102, 63, 7, 124, 192, 68, 128, 54, 185, 72, 67, 115, 171, 82, 183, 26, 104, 36, 200, 193, 79, 40, 227, 53, 130, 241, 65, 241, 91, 208, 131, 185, 17, 32, 33, 206, 19, 62, 198, 90, 51, 196, 170, 84, 243, 192, 36, 168, 182, 59, 180, 42, 92, 173, 163, 212, 146, 235, 156, 184, 237, 131, 64, 69, 12, 125, 164, 158, 178, 252, 48, 54, 172, 218, 218, 111, 39, 59, 151, 45, 46, 198, 169, 70, 225, 92, 115, 255, 244, 238, 225, 238, 206, 210, 25, 157, 250, 254, 217, 86, 129, 96, 165, 255, 57, 228, 23, 155, 115, 40, 43, 19, 120, 45, 232, 117, 48, 230, 206, 170, 81, 100, 229, 159, 245, 44, 32, 70, 224, 146, 182, 215, 52, 251, 45, 81, 237, 211, 150, 116, 237, 39, 9, 122, 253, 225, 63, 58, 100, 155, 18, 93];
const TEST_KEY_D: &[u8] = &[71, 102, 214, 213, 53, 213, 4, 40, 15, 136, 248, 233, 235, 150, 119, 154, 130, 127, 137, 129, 3, 228, 100, 63, 175, 227, 199, 131, 184, 110, 142, 183, 187, 21, 41, 108, 136, 55, 86, 155, 41, 96, 87, 193, 14, 250, 249, 244, 150, 195, 22, 85, 45, 186, 13, 153, 195, 201, 207, 129, 93, 43, 65, 41, 229, 56, 144, 240, 27, 201, 177, 245, 211, 197, 24, 192, 236, 253, 46, 226, 156, 25, 30, 184, 197, 23, 103, 57, 162, 154, 81, 191, 235, 165, 244, 68, 219, 193, 157, 12, 77, 234, 120, 185, 85, 57, 204, 55, 75, 143, 148, 72, 114, 91, 59, 70, 73, 198, 101, 24, 68, 197, 197, 255, 48, 159, 165, 170, 203, 138, 111, 165, 253, 86, 39, 182, 244, 139, 246, 22, 71, 46, 200, 162, 26, 37, 252, 82, 140, 218, 41, 97, 5, 189, 205, 143, 167, 239, 96, 104, 131, 47, 78, 50, 36, 211, 9, 94, 33, 152, 144, 243, 116, 205, 246, 65, 97, 201, 190, 193, 76, 97, 15, 203, 32, 232, 226, 159, 229, 236, 187, 94, 104, 72, 164, 233, 146, 76, 76, 216, 184, 68, 108, 147, 0, 6, 111, 91, 151, 30, 145, 64, 14, 158, 148, 105, 216, 76, 77, 191, 163, 127, 221, 46, 2, 136, 240, 39, 125, 53, 30, 22, 154, 121, 9, 31, 197, 180, 17, 87, 172, 214, 103, 42, 49, 205, 92, 99, 1, 189, 199, 59, 182, 203, 240, 199];
const TEST_KEY_P: &[u8] = &[252, 83, 28, 117, 13, 233, 132, 156, 120, 127, 48, 240, 79, 223, 160, 17, 13, 84, 40, 48, 244, 226, 48, 162, 0, 199, 184, 30, 213, 173, 126, 17, 251, 192, 188, 94, 187, 151, 77, 36, 165, 226, 18, 108, 214, 215, 237, 64, 234, 91, 22, 92, 88, 15, 210, 73, 74, 57, 69, 207, 31, 21, 4, 211, 166, 81, 90, 29, 28, 224, 71, 167, 229, 164, 55, 220, 104, 178, 153, 2, 237, 15, 58, 226, 218, 79, 150, 163, 226, 252, 211, 130, 121, 127, 53, 234, 52, 127, 174, 205, 181, 202, 229, 238, 24, 14, 129, 242, 68, 23, 127, 67, 235, 232, 208, 153, 113, 191, 66, 207, 89, 83, 97, 211, 6, 163, 14, 59];
const TEST_KEY_Q: &[u8] = &[236, 79, 186, 71, 97, 18, 67, 50, 241, 100, 148, 38, 98, 124, 8, 76, 80, 35, 62, 220, 79, 178, 2, 33, 47, 147, 240, 64, 164, 210, 216, 23, 49, 44, 122, 32, 166, 124, 127, 18, 212, 167, 135, 119, 38, 71, 18, 167, 224, 197, 244, 224, 71, 29, 205, 33, 207, 196, 245, 27, 241, 126, 127, 30, 75, 129, 108, 192, 107, 144, 93, 105, 198, 171, 17, 157, 235, 148, 70, 67, 21, 136, 186, 118, 50, 200, 212, 114, 174, 206, 237, 78, 179, 65, 203, 83, 142, 225, 244, 192, 207, 186, 228, 90, 48, 197, 194, 35, 164, 80, 250, 12, 4, 115, 169, 240, 9, 46, 172, 219, 46, 206, 15, 163, 251, 100, 96, 71];

/// Rebuilds the fixture RSA key pair from its raw components.
fn test_keys() -> (rsa::RsaPublicKey, rsa::RsaPrivateKey) {
    let private = rsa::RsaPrivateKey::from_components(
        rsa::BigUint::from_bytes_be(TEST_KEY_N),
        rsa::BigUint::from_bytes_be(&[1, 0, 1]),
        rsa::BigUint::from_bytes_be(TEST_KEY_D),
        vec![
            rsa::BigUint::from_bytes_be(TEST_KEY_P),
            rsa::BigUint::from_bytes_be(TEST_KEY_Q),
        ],
    )
    .expect("failed to rebuild the fixture key");
    (private.to_public_key(), private)
}

const HEADER_LEN: usize = 256 + 12;

#[test]
fn whole_buffer_round_trip() {
    let (public_key, private_key) = test_keys();
    let mut rng = rand::thread_rng();
    let msg: Vec<u8> = (0..1000).map(|i| (i % 256) as u8).collect();
    let sealed = encrypt_bytes(&mut rng, &public_key, &msg).unwrap();
    assert_eq!(sealed.len(), HEADER_LEN + msg.len() + 16);
    let opened = decrypt_bytes(&private_key, &sealed).unwrap();
    assert_eq!(opened, msg);
}

#[test]
fn whole_buffer_tamper_fails_closed() {
    let (public_key, private_key) = test_keys();
    let mut rng = rand::thread_rng();
    let msg = b"attack at dawn";
    let mut sealed = encrypt_bytes(&mut rng, &public_key, msg).unwrap();
    let last = sealed.len() - 1;
    sealed[last] ^= 0x01;
    assert_eq!(
        decrypt_bytes(&private_key, &sealed).unwrap_err(),
        StreamError::CryptoError
    );
}

#[test]
fn whole_buffer_too_short_fails_closed() {
    let (_, private_key) = test_keys();
    assert_eq!(
        decrypt_bytes(&private_key, &[0u8; 100]).unwrap_err(),
        StreamError::CryptoError
    );
    assert_eq!(
        decrypt_bytes(&private_key, &[]).unwrap_err(),
        StreamError::CryptoError
    );
}

#[test]
fn payload_round_trip_under_a_raw_key() {
    let key = [42u8; 32];
    let nonce = [7u8; 12];
    let msg = b"sixteen byte msg";
    let sealed = seal_payload(&key, &nonce, msg).unwrap();
    assert_eq!(sealed.len(), 12 + msg.len() + 16);
    assert_eq!(&sealed[..12], &nonce);
    let opened = open_payload(&key, &sealed).unwrap();
    assert_eq!(opened, msg);
}

#[test]
fn payload_tamper_fails_closed() {
    let key = [42u8; 32];
    let nonce = [7u8; 12];
    let mut sealed = seal_payload(&key, &nonce, b"payload").unwrap();
    sealed[13] ^= 0x80;
    assert_eq!(open_payload(&key, &sealed).unwrap_err(), StreamError::CryptoError);
}

#[test]
fn payload_under_wrong_key_fails_closed() {
    let key = [42u8; 32];
    let nonce = [7u8; 12];
    let sealed = seal_payload(&key, &nonce, b"payload").unwrap();
    let other = [43u8; 32];
    assert_eq!(open_payload(&other, &sealed).unwrap_err(), StreamError::CryptoError);
}
