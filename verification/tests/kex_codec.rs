use parustiko::kex::KeyExchange;
use parustiko::message::SshMessageID;

#[test]
fn test_bytes_to_vec_string_offset_error() {
    let buffer = [1, 2, 3];
    let mut offset = 2;
    let result = KeyExchange::bytes_to_vec_string(&buffer, &mut offset);

    assert!(result.is_err());
    assert_eq!(result.unwrap_err().message(), "Offset value is out of range during decoding BPP");
}

#[test]
fn test_bytes_to_vec_string_too_large_section_len() {
    let buffer = [128, 128, 128, 128, 128, 128, 128];
    let mut offset = 2;
    let result = KeyExchange::bytes_to_vec_string(&buffer, &mut offset);

    assert!(result.is_err());
    assert_eq!(
        result.unwrap_err().message(),
        "The calculated section length exceeds the buffer size"
    );
}

#[test]
fn test_bytes_to_vec_incorrect_string() {
    let section_bytes: Vec<u8> = vec![
        0, 0, 0, 10, // section size
        0xC0, 0xC0, 0xC0, 0xC0, 0xC0, // invalid bytes
        44,   // ,
        87, 87, 87, 87, 87, // mock to bump buffer size
    ];
    let mut offset = 0;

    let result = KeyExchange::bytes_to_vec_string(&section_bytes, &mut offset);

    assert!(result.is_err());
    assert_eq!(result.unwrap_err().message(), "Read string is incorrect");
}

#[test]
fn test_bytes_to_vec_correct_read_two_sections() {
    let section_bytes: Vec<u8> = vec![
        0, 0, 0, 11, // both sections size
        72, 101, 108, 108, 111, // Hello
        44,  // ,
        87, 111, 114, 108, 100, // World
    ];
    let mut offset = 0;

    let result = KeyExchange::bytes_to_vec_string(&section_bytes, &mut offset);

    assert!(result.is_ok());
    let data = result.unwrap();

    assert_eq!(data, vec!["Hello", "World"]);
}

#[test]
fn vec_string_to_bytes_empty_list() {
    let data: Vec<String> = vec![];
    let result = KeyExchange::vec_string_to_bytes(&data);

    assert_eq!(result, vec![0u8, 0u8, 0u8, 0u8]);
}

#[test]
fn vec_string_to_bytes_two_names() {
    let data = vec!["AB".to_string(), "CDE".to_string()];
    let result = KeyExchange::vec_string_to_bytes(&data);

    assert_eq!(result, vec![0, 0, 0, 6, 65, 66, 44, 67, 68, 69]);
}

#[test]
fn test_to_be_bytes() {
    let key_ex = KeyExchange {
        message_id: SshMessageID::KexInit,
        cookie: [0u8; 16],
        kex_algorithms: vec!["A".to_string(), "B".to_string()],
        host_key_algorithms: vec!["C".to_string(), "D".to_string()],
        ciphers_ctos: vec!["E".to_string(), "F".to_string()],
        ciphers_stoc: vec!["G".to_string(), "H".to_string()],
        macs_ctos: vec!["I".to_string(), "J".to_string()],
        macs_stoc: vec!["K".to_string(), "L".to_string()],
        compression_ctos: vec!["M".to_string(), "N".to_string()],
        compression_stoc: vec!["O".to_string(), "P".to_string()],
        languages_ctos: vec!["Q".to_string(), "R".to_string()],
        languages_stoc: vec!["S".to_string(), "T".to_string()],
        first_kex_follows: false,
        reserved: 0u32,
    };
    let result = key_ex.to_be_bytes();

    assert_eq!(
        result,
        Vec::from([
            20, //ssh msg id
            0, 0, 0, 0, 0, 0, 0, 0, 0, 0, 0, 0, 0, 0, 0, 0, // cookie
            0, 0, 0, 3, // kex algo size
            65, 44, 66, // kex algo msg
            0, 0, 0, 3, // host keys algo size
            67, 44, 68, // host keys algo msg
            0, 0, 0, 3, // cipher ctos size
            69, 44, 70, // cipher ctos msg
            0, 0, 0, 3, // cipher stoc size
            71, 44, 72, // cipher stoc msg
            0, 0, 0, 3, // mac ctos size
            73, 44, 74, // mac ctos msg
            0, 0, 0, 3, // mac stoc size
            75, 44, 76, // mac stoc msg
            0, 0, 0, 3, // comp ctos size
            77, 44, 78, // comp ctos msg
            0, 0, 0, 3, // comp stoc size
            79, 44, 80, // comp stoc msg
            0, 0, 0, 3, // language ctos size
            81, 44, 82, // language ctos msg
            0, 0, 0, 3, // language stoc size
            83, 44, 84, // language stoc msg
            0,  // first_kex_follows
            0, 0, 0, 0, //reserved
        ])
    )
}

#[test]
fn test_from_bytes() {
    let bytes = [
        20, //ssh msg id
        0, 0, 0, 0, 0, 0, 0, 0, 0, 0, 0, 0, 0, 0, 0, 0, // cookie
        0, 0, 0, 3, // kex algo size
        65, 44, 66, // kex algo msg
        0, 0, 0, 3, // host keys algo size
        67, 44, 68, // host keys algo msg
        0, 0, 0, 3, // cipher ctos size
        69, 44, 70, // cipher ctos msg
        0, 0, 0, 3, // cipher stoc size
        71, 44, 72, // cipher stoc msg
        0, 0, 0, 3, // mac ctos size
        73, 44, 74, // mac ctos msg
        0, 0, 0, 3, // mac stoc size
        75, 44, 76, // mac stoc msg
        0, 0, 0, 3, // comp ctos size
        77, 44, 78, // comp ctos msg
        0, 0, 0, 3, // comp stoc size
        79, 44, 80, // comp stoc msg
        0, 0, 0, 3, // language ctos size
        81, 44, 82, // language ctos msg
        0, 0, 0, 3, // language stoc size
        83, 44, 84, // language stoc msg
    ];

    let result = KeyExchange::from_bytes(&bytes);
    assert!(result.is_ok());

    let key_ex = result.unwrap();
    assert_eq!(key_ex.message_id.to_u8() as u32, 20);
    assert_eq!(key_ex.cookie, [0u8; 16]);
    assert_eq!(key_ex.kex_algorithms, vec!["A".to_string(), "B".to_string()]);
    assert_eq!(key_ex.host_key_algorithms, vec!["C".to_string(), "D".to_string()]);
    assert_eq!(key_ex.ciphers_ctos, vec!["E".to_string(), "F".to_string()]);
    assert_eq!(key_ex.ciphers_stoc, vec!["G".to_string(), "H".to_string()]);
    assert_eq!(key_ex.macs_ctos, vec!["I".to_string(), "J".to_string()]);
    assert_eq!(key_ex.macs_stoc, vec!["K".to_string(), "L".to_string()]);
    assert_eq!(key_ex.compression_ctos, vec!["M".to_string(), "N".to_string()]);
    assert_eq!(key_ex.compression_stoc, vec!["O".to_string(), "P".to_string()]);
    assert_eq!(key_ex.languages_ctos, vec!["Q".to_string(), "R".to_string()]);
    assert_eq!(key_ex.languages_stoc, vec!["S".to_string(), "T".to_string()]);
    assert_eq!(key_ex.first_kex_follows, false);
    assert_eq!(key_ex.reserved, 0u32);
}

#[test]
fn try_to_be_bytes_matches_unchecked_encoding() {
    let key_ex = KeyExchange {
        message_id: SshMessageID::KexInit,
        cookie: [3u8; 16],
        kex_algorithms: vec!["A".to_string(), "B".to_string()],
        host_key_algorithms: vec!["C".to_string()],
        ciphers_ctos: vec![],
        ciphers_stoc: vec![],
        macs_ctos: vec![],
        macs_stoc: vec![],
        compression_ctos: vec![],
        compression_stoc: vec![],
        languages_ctos: vec![],
        languages_stoc: vec![],
        first_kex_follows: false,
        reserved: 0u32,
    };

    let checked = key_ex.try_to_be_bytes().unwrap();
    assert_eq!(checked, key_ex.to_be_bytes());
}

#[test]
fn kex_round_trip_end_to_end() {
    let original = KeyExchange {
        message_id: SshMessageID::KexInit,
        cookie: [7u8; 16],
        kex_algorithms: vec!["A".to_string(), "B".to_string()],
        host_key_algorithms: vec!["C".to_string(), "D".to_string()],
        ciphers_ctos: vec!["E".to_string(), "F".to_string()],
        ciphers_stoc: vec!["G".to_string(), "H".to_string()],
        macs_ctos: vec!["I".to_string(), "J".to_string()],
        macs_stoc: vec!["K".to_string(), "L".to_string()],
        compression_ctos: vec!["M".to_string(), "N".to_string()],
        compression_stoc: vec!["O".to_string(), "P".to_string()],
        languages_ctos: vec!["Q".to_string(), "R".to_string()],
        languages_stoc: vec!["S".to_string(), "T".to_string()],
        first_kex_follows: false,
        reserved: 0u32,
    };
    let encoded = original.to_be_bytes();
    let decoded = KeyExchange::from_bytes(encoded.as_slice()).unwrap();

    assert_eq!(decoded.message_id, original.message_id);
    assert_eq!(decoded.cookie, original.cookie);
    assert_eq!(decoded.kex_algorithms, original.kex_algorithms);
    assert_eq!(decoded.host_key_algorithms, original.host_key_algorithms);
    assert_eq!(decoded.ciphers_ctos, original.ciphers_ctos);
    assert_eq!(decoded.ciphers_stoc, original.ciphers_stoc);
    assert_eq!(decoded.macs_ctos, original.macs_ctos);
    assert_eq!(decoded.macs_stoc, original.macs_stoc);
    assert_eq!(decoded.compression_ctos, original.compression_ctos);
    assert_eq!(decoded.compression_stoc, original.compression_stoc);
    assert_eq!(decoded.languages_ctos, original.languages_ctos);
    assert_eq!(decoded.languages_stoc, original.languages_stoc);
    assert_eq!(decoded.first_kex_follows, original.first_kex_follows);
    assert_eq!(decoded.reserved, original.reserved);
}

#[test]
fn kex_round_trip_multibyte_names() {
    let original = KeyExchange {
        message_id: SshMessageID::KexInit,
        cookie: [1u8; 16],
        kex_algorithms: vec!["curve25519-sha256".to_string(), "čau".to_string()],
        host_key_algorithms: vec!["ssh-ed25519".to_string()],
        ciphers_ctos: vec!["aes128-ctr".to_string()],
        ciphers_stoc: vec!["aes128-ctr".to_string()],
        macs_ctos: vec!["hmac-sha2-256".to_string()],
        macs_stoc: vec!["hmac-sha2-256".to_string()],
        compression_ctos: vec!["none".to_string()],
        compression_stoc: vec!["none".to_string()],
        languages_ctos: vec![],
        languages_stoc: vec![],
        first_kex_follows: false,
        reserved: 0u32,
    };
    let encoded = original.to_be_bytes();
    let decoded = KeyExchange::from_bytes(encoded.as_slice()).unwrap();

    assert_eq!(decoded.kex_algorithms, original.kex_algorithms);
    assert_eq!(decoded.languages_ctos, original.languages_ctos);
}
