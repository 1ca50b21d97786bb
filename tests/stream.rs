use steganography::stream::{get_expected_str_len, Secret, SecretErrors, SecretState};

fn pushed(bytes: &[u8]) -> Secret {
    let mut secret = Secret::new();
    for b in bytes {
        assert_eq!(secret.push_byte(*b), Ok(()));
    }
    secret
}

#[test]
fn push_enough_bytes_to_get_valid_len() {
    let mut secret = Secret::new();
    let _ = secret.push_byte(0x3);
    let _ = secret.push_byte(0x0);
    let _ = secret.push_byte(0x0);
    let _ = secret.push_byte(0x0);
    let _ = secret.push_byte(0x0);
    let _ = secret.push_byte(0x0);
    let _ = secret.push_byte(0x0);
    let _ = secret.push_byte(0x0);
    let _ = secret.push_byte(0x0);

    let expected_len = get_expected_str_len(secret.as_bytes()).expect("error getting str len from first 8 bytes");

    assert_eq!(3, expected_len);
}

#[test]
fn states_follow_collected_bytes() {
    let mut secret = Secret::new();
    assert_eq!(secret.state(), SecretState::Empty);
    for b in [2u8, 0, 0, 0, 0, 0, 0] {
        secret.push_byte(b).unwrap();
        assert_eq!(secret.state(), SecretState::AwaitingLength);
    }
    secret.push_byte(0).unwrap();
    assert_eq!(secret.state(), SecretState::AwaitingPayload);
    assert_eq!(secret.get_as_string(), Err(SecretErrors::Incomplete));
    secret.push_byte(b'h').unwrap();
    assert_eq!(secret.state(), SecretState::AwaitingPayload);
    assert!(!secret.is_complete());
    secret.push_byte(b'i').unwrap();
    assert_eq!(secret.state(), SecretState::Complete);
    assert!(secret.is_complete());
}

#[test]
fn complete_secret_reads_out_repeatedly() {
    let secret = pushed(&[3, 0, 0, 0, 0, 0, 0, 0, b'f', b'o', b'o']);
    assert_eq!(secret.get_as_string(), Ok("foo".to_string()));
    assert_eq!(secret.get_as_string(), Ok("foo".to_string()));
}

#[test]
fn push_after_complete_overflows_and_keeps_state() {
    let mut secret = pushed(&[3, 0, 0, 0, 0, 0, 0, 0, b'f', b'o', b'o']);
    let before = secret.as_bytes().to_vec();
    assert_eq!(secret.push_byte(b'x'), Err(SecretErrors::Overflow));
    assert_eq!(secret.as_bytes(), &before[..]);
    assert_eq!(secret.get_as_string(), Ok("foo".to_string()));
}

#[test]
fn zero_length_completes_with_prefix() {
    let mut secret = pushed(&[0; 8]);
    assert!(secret.is_complete());
    assert_eq!(secret.get_as_string(), Ok(String::new()));
    assert_eq!(secret.push_byte(1), Err(SecretErrors::Overflow));
}

#[test]
fn invalid_payload_is_utf8_error() {
    let secret = pushed(&[2, 0, 0, 0, 0, 0, 0, 0, 0xC3, 0x28]);
    assert_eq!(secret.get_as_string(), Err(SecretErrors::Utf8Error));
}

#[test]
fn from_array_matches_pushing() {
    let bytes = [1u8, 0, 0, 0, 0, 0, 0, 0, b'z'];
    let secret = Secret::from_array(&bytes);
    assert!(secret.is_complete());
    assert_eq!(secret.as_bytes(), &bytes[..]);
    assert_eq!(secret.get_as_string(), Ok("z".to_string()));
    let partial = Secret::from_array(&bytes[..5]);
    assert_eq!(partial.state(), SecretState::AwaitingLength);
}

#[test]
fn expected_len_reads_little_endian() {
    assert_eq!(get_expected_str_len(&[1, 2, 3, 4, 5, 6, 7, 8]), Ok(0x0807_0605_0403_0201));
    assert_eq!(get_expected_str_len(&[0xFF; 9]), Ok(u64::MAX));
    assert_eq!(get_expected_str_len(&[1, 2, 3]), Err(SecretErrors::Underflow));
}
