use crypto::{CryptoReader, CryptoWriter};
use rand::SeedableRng;

const TEST_KEY_N: &[u8] = &[232, 235, 51, 124, 110, 89, 255, 191, 2, 151, 238, 194, 28, 71, 186, 164, 165, 36, 46, 145, 75, 16, 94, 140, 150, 135, 253, 205, 76, 43, 191, 17, 150, 152, 15, 145, 54, 168, 24, 62, 7, 140, 197, 205, 241, 215, 252, 252, 189, 160, 156, 174, 230, 241, 244, 171, 116, 1, 217, 244, 30, 183, 136, 60, 148, 253, 68, 207, 148, 252, 192, 253, 73, 239, 188, 21, 103, 98, 233, 43, 97, 142, 236, 19, 113, 67, 51, 101, 143, 133, 212, 183, 162, 139, 203, 144, 24, 218, 132, 18, 196, 221, 198, 158, 102, 63, 7, 124, 192, 68, 128, 54, 185, 72, 67, 115, 171, 82, 183, 26, 104, 36, 200, 193, 79, 40, 227, 53, 130, 241, 65, 241, 91, 208, 131, 185, 17, 32, 33, 206, 19, 62, 198, 90, 51, 196, 170, 84, 243, 192, 36, 168, 182, 59, 180, 42, 92, 173, 163, 212, 146, 235, 156, 184, 237, 131, 64, 69, 12, 125, 164, 158, 178, 252, 48, 54, 172, 218, 218, 111, 39, 59, 151, 45, 46, 198, 169, 70, 225, 92, 115, 255, 244, 238, 225, 238, 206, 210, 25, 157, 250, 254, 217, 86, 129, 96, 165, 255, 57, 228, 23, 155, 115, 40, 43, 19, 120, 45, 232, 117, 48, 230, 206, 170, 81, 100, 229, 159, 245, 44, 32, 70, 224, 146, 182, 215, 52, 251, 45, 81, 237, 211, 150, 116, 237, 39, 9, 122, 253, 225, 63, 58, 100, 155, 18, 93];
const TEST_KEY_D: &[u8] = &[71, 102, 214, 213, 53, 213, 4, 40, 15, 136, 248, 233, 235, 150, 119, 154, 130, 127, 137, 129, 3, 228, 100, 63, 175, 227, 199, 131, 184, 110, 142, 183, 187, 21, 41, 108, 136, 55, 86, 155, 41, 96, 87, 193, 14, 250, 249, 244, 150, 195, 22, 85, 45, 186, 13, 153, 195, 201, 207, 129, 93, 43, 65, 41, 229, 56, 144, 240, 27, 201, 177, 245, 211, 197, 24, 192, 236, 253, 46, 226, 156, 25, 30, 184, 197, 23, 103, 57, 162, 154, 81, 191, 235, 165, 244, 68, 219, 193, 157, 12, 77, 234, 120, 185, 85, 57, 204, 55, 75, 143, 148, 72, 114, 91, 59, 70, 73, 198, 101, 24, 68, 197, 197, 255, 48, 159, 165, 170, 203, 138, 111, 165, 253, 86, 39, 182, 244, 139, 246, 22, 71, 46, 200, 162, 26, 37, 252, 82, 140, 218, 41, 97, 5, 189, 205, 143, 167, 239, 96, 104, 131, 47, 78, 50, 36, 211, 9, 94, 33, 152, 144, 243, 116, 205, 246, 65, 97, 201, 190, 193, 76, 97, 15, 203, 32, 232, 226, 159, 229, 236, 187, 94, 104, 72, 164, 233, 146, 76, 76, 216, 184, 68, 108, 147, 0, 6, 111, 91, 151, 30, 145, 64, 14, 158, 148, 105, 216, 76, 77, 191, 163, 127, 221, 46, 2, 136, 240, 39, 125, 53, 30, 22, 154, 121, 9, 31, 197, 180, 17, 87, 172, 214, 103, 42, 49, 205, 92, 99, 1, 189, 199, 59, 182, 203, 240, 199];
const TEST_KEY_P: &[u8] = &[252, 83, 28, 117, 13, 233, 132, 156, 120, 127, 48, 240, 79, 223, 160, 17, 13, 84, 40, 48, 244, 226, 48, 162, 0, 199, 184, 30, 213, 173, 126, 17, 251, 192, 188, 94, 187, 151, 77, 36, 165, 226, 18, 108, 214, 215, 237, 64, 234, 91, 22, 92, 88, 15, 210, 73, 74, 57, 69, 207, 31, 21, 4, 211, 166, 81, 90, 29, 28, 224, 71, 167, 229, 164, 55, 220, 104, 178, 153, 2, 237, 15, 58, 226, 218, 79, 150, 163, 226, 252, 211, 130, 121, 127, 53, 234, 52, 127, 174, 205, 181, 202, 229, 238, 24, 14, 129, 242, 68, 23, 127, 67, 235, 232, 208, 153, 113, 191, 66, 207, 89, 83, 97, 211, 6, 163, 14, 59];
const TEST_KEY_Q: &[u8] = &[236, 79, 186, 71, 97, 18, 67, 50, 241, 100, 148, 38, 98, 124, 8, 76, 80, 35, 62, 220, 79, 178, 2, 33, 47, 147, 240, 64, 164, 210, 216, 23, 49, 44, 122, 32, 166, 124, 127, 18, 212, 167, 135, 119, 38, 71, 18, 167, 224, 197, 244, 224, 71, 29, 205, 33, 207, 196, 245, 27, 241, 126, 127, 30, 75, 129, 108, 192, 107, 144, 93, 105, 198, 171, 17, 157, 235, 148, 70, 67, 21, 136, 186, 118, 50, 200, 212, 114, 174, 206, 237, 78, 179, 65, 203, 83, 142, 225, 244, 192, 207, 186, 228, 90, 48, 197, 194, 35, 164, 80, 250, 12, 4, 115, 169, 240, 9, 46, 172, 219, 46, 206, 15, 163, 251, 100, 96, 71];

/// Rebuilds the fixture RSA key pair from its raw components.
fn test_keys() -> (rsa::RsaPublicKey, rsa::RsaPrivateKey) {
    let private = rsa::RsaPrivateKey::from_components(
        rsa::BigUint::from_bytes_be(TEST_KEY_N),
        rsa::BigUint::from_bytes_be(&[1, 0, 1]),
        rsa::BigUint::from_bytes_be(TEST_KEY_D),
        vec![
            rsa::BigUint::from_bytes_be(TEST_KEY_P),
            rsa::BigUint::from_bytes_be(TEST_KEY_Q),
        ],
    )
    .expect("failed to rebuild the fixture key");
    (private.to_public_key(), private)
}

fn encrypt_with<const B: usize>(public_key: rsa::RsaPublicKey, msg: &[u8]) -> Vec<u8> {
    let mut encrypted: Vec<u8> = Vec::new();
    {
        let mut writer = CryptoWriter::<_, B>::new(&mut encrypted, public_key).unwrap();
        assert_eq!(writer.write(msg).unwrap(), msg.len());
        writer.finalize().unwrap();
    }
    encrypted
}

fn read_all<const B: usize>(reader: &mut CryptoReader<&[u8], B>) -> Vec<u8> {
    let mut out = Vec::new();
    loop {
        let part = reader.read(4096).expect("failed to read data");
        if part.is_empty() {
            break;
        }
        out.extend_from_slice(&part);
    }
    out
}

fn decrypt_with<const B: usize>(private_key: rsa::RsaPrivateKey, encrypted: &[u8]) -> Vec<u8> {
    let mut reader = CryptoReader::<_, B>::new(encrypted, private_key).unwrap();
    read_all::<B>(&mut reader)
}

fn test_message<const B: usize>(msg: &[u8]) {
    let (public_key, private_key) = test_keys();
    let encrypted = encrypt_with::<B>(public_key, msg);
    let decrypted = decrypt_with::<B>(private_key, &encrypted);
    assert_eq!(msg, decrypted.as_slice());
}

/// Bytes in front of the chunk stream: the RSA block plus the raw nonce.
const HEADER_LEN: usize = 256 + 12;

#[test]
fn test_one_block() {
    test_message::<16>(b"Hello, World!   "); // Message is exactly one block
}

#[test]
fn test_two_block() {
    test_message::<16>(b"Hello, World!   Hello, World!   "); // Message is exactly two blocks
}

#[test]
fn test_less_than_one_block() {
    test_message::<16>(b"Hello, World!"); // Message is less than one block
}

#[test]
fn test_more_than_one_block() {
    test_message::<16>("Hello, World!".repeat(10).as_bytes()); // Message is more than one block
}

#[test]
fn test_with_other_buffer_size() {
    test_message::<32>("Hello, World!".repeat(10).as_bytes()); // Message is more than one block
}

#[test]
fn empty_plaintext_is_header_only() {
    let (public_key, private_key) = test_keys();
    let encrypted = encrypt_with::<16>(public_key, b"");
    assert_eq!(encrypted.len(), HEADER_LEN);
    let decrypted = decrypt_with::<16>(private_key, &encrypted);
    assert!(decrypted.is_empty());
}

#[test]
fn scenario_trailing_chunk() {
    // 13 bytes with capacity 16: one trailing chunk of 13 + 16 bytes
    let (public_key, private_key) = test_keys();
    let msg = b"Hello, World!";
    let encrypted = encrypt_with::<16>(public_key, msg);
    assert_eq!(encrypted.len(), HEADER_LEN + 13 + 16);
    assert_eq!(decrypt_with::<16>(private_key, &encrypted), msg);
}

#[test]
fn scenario_two_full_chunks() {
    // 32 bytes with capacity 16: exactly two chunks of 16 + 16 bytes each
    let (public_key, private_key) = test_keys();
    let msg: Vec<u8> = (0u8..32u8).collect();
    let encrypted = encrypt_with::<16>(public_key, &msg);
    assert_eq!(encrypted.len(), HEADER_LEN + 2 * (16 + 16));
    assert_eq!(decrypt_with::<16>(private_key, &encrypted), msg);
}

#[test]
fn layout_exact_multiple() {
    // 48 bytes with capacity 16: three full chunks, no trailing chunk
    let (public_key, _) = test_keys();
    let msg = [7u8; 48];
    let encrypted = encrypt_with::<16>(public_key, &msg);
    assert_eq!(encrypted.len(), HEADER_LEN + 3 * (16 + 16));
}

#[test]
fn layout_trailing_remainder() {
    // 40 bytes with capacity 16: two full chunks plus one of 8 + 16 bytes
    let (public_key, _) = test_keys();
    let msg = [9u8; 40];
    let encrypted = encrypt_with::<16>(public_key, &msg);
    assert_eq!(encrypted.len(), HEADER_LEN + 2 * (16 + 16) + 8 + 16);
}

#[test]
fn one_byte_pulls_match_bulk_read() {
    let (public_key, private_key) = test_keys();
    let msg = "Hello, World!".repeat(7);
    let encrypted = encrypt_with::<16>(public_key, msg.as_bytes());
    let mut reader =
        CryptoReader::<_, 16>::new(encrypted.as_slice(), private_key.clone()).unwrap();
    let mut byte_by_byte = Vec::new();
    loop {
        let part = reader.read(1).unwrap();
        if part.is_empty() {
            break;
        }
        byte_by_byte.extend_from_slice(&part);
    }
    let bulk = decrypt_with::<16>(private_key, &encrypted);
    assert_eq!(byte_by_byte, bulk);
    assert_eq!(byte_by_byte, msg.as_bytes());
}

#[test]
fn exotic_size_one_byte() {
    test_message::<21>(&[3u8; 1]);
}

#[test]
fn exotic_size_just_under_capacity() {
    let msg: Vec<u8> = (0..20u8).collect();
    test_message::<21>(&msg);
}

#[test]
fn exotic_size_exact_capacity() {
    let msg: Vec<u8> = (0..21u8).collect();
    test_message::<21>(&msg);
}

#[test]
fn exotic_size_just_over_capacity() {
    let msg: Vec<u8> = (0..22u8).collect();
    test_message::<21>(&msg);
}

#[test]
fn exotic_size_two_full_chunks() {
    let msg: Vec<u8> = (0..42u8).collect();
    test_message::<21>(&msg);
}

#[test]
fn large_message_capacity_21() {
    let msg = [1u8; 2048];
    test_message::<21>(&msg);
}

#[test]
fn seeded_rng_makes_encryption_deterministic() {
    let (public_key, private_key) = test_keys();
    let msg = b"injected randomness makes this reproducible";
    let mut first: Vec<u8> = Vec::new();
    {
        let rng = rand::rngs::StdRng::seed_from_u64(7);
        let mut writer =
            CryptoWriter::<_, 16>::new_with_rng(&mut first, public_key.clone(), rng).unwrap();
        writer.write(msg).unwrap();
        writer.finalize().unwrap();
    }
    let mut second: Vec<u8> = Vec::new();
    {
        let rng = rand::rngs::StdRng::seed_from_u64(7);
        let mut writer =
            CryptoWriter::<_, 16>::new_with_rng(&mut second, public_key, rng).unwrap();
        writer.write(msg).unwrap();
        writer.finalize().unwrap();
    }
    assert_eq!(first, second);
    assert_eq!(decrypt_with::<16>(private_key, &first), msg);
}

#[test]
fn reading_past_the_end_keeps_returning_nothing() {
    let (public_key, private_key) = test_keys();
    let encrypted = encrypt_with::<16>(public_key, b"short");
    let mut reader = CryptoReader::<_, 16>::new(encrypted.as_slice(), private_key).unwrap();
    assert_eq!(reader.read(100).unwrap(), b"short");
    assert!(reader.read(100).unwrap().is_empty());
    assert!(reader.read(1).unwrap().is_empty());
}
