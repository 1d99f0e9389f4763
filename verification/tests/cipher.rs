use parustiko::encryption::{Encryption, AES};

#[test]
fn test_correct_encryption_and_decryption() {
    let aes = AES::new();
    let mut block = vec![1, 2, 3, 4, 5, 6, 7, 8, 9, 10, 11, 12, 13, 14, 15, 16];
    let expected = vec![101, 159, 42, 191, 197, 188, 7, 8, 251, 150, 231, 164, 74, 249, 213, 149];
    let block_copy = block.clone();
    aes.encrypt(&mut block).unwrap();
    assert_eq!(block, expected);

    aes.decrypt(&mut block).unwrap();
    assert_eq!(block, block_copy);
}

#[test]
fn test_incorrect_encryption() {
    let aes = AES::new();

    let mut block = vec![42u8; 5];
    let err = aes.encrypt(&mut block).unwrap_err().message();

    assert_eq!(err, "block size has incorrect length: (block size has to have 16 bytes)");
}

#[test]
fn test_incorrect_decryption() {
    let aes = AES::new();

    let mut block = vec![42u8; 5];
    let err = aes.decrypt(&mut block).unwrap_err().message();

    assert_eq!(err, "block size has incorrect length: (block size has to have 16 bytes)");
}
