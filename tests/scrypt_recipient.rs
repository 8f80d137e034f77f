use age::encoding::parse_u8;
use age::recipient::{
    probe_derivation, target_scrypt_work_factor, Error, RecipientStanza, SCRYPT_SALT_LABEL,
};
use age_core::format::Stanza;
use age_core::primitives::aead_encrypt;

fn stanza(tag: &str, args: &[&str], body: Vec<u8>) -> Stanza {
    Stanza {
        tag: tag.to_string(),
        args: args.iter().map(|a| a.to_string()).collect(),
        body,
    }
}

fn zero_salt_arg() -> &'static str {
    "AAAAAAAAAAAAAAAAAAAAAA"
}

/// The wrapping key that the recipient derives: scrypt (r = 8, p = 1) over
/// the label and the salt.
fn wrapping_key(salt: &[u8; 16], log_n: u8, passphrase: &str) -> [u8; 32] {
    let mut inner_salt = SCRYPT_SALT_LABEL.as_bytes().to_vec();
    inner_salt.extend_from_slice(salt);
    let params = scrypt::ScryptParams::new(log_n, 8, 1).unwrap();
    let mut key = [0u8; 32];
    scrypt::scrypt(passphrase.as_bytes(), &inner_salt, &params, &mut key).unwrap();
    key
}

fn wrapped_stanza(salt: [u8; 16], log_n: u8, passphrase: &str, file_key: [u8; 16]) -> RecipientStanza {
    let key = wrapping_key(&salt, log_n, passphrase);
    let ct = aead_encrypt(&key, &file_key);
    let mut encrypted_file_key = [0u8; 32];
    encrypted_file_key.copy_from_slice(&ct);
    RecipientStanza { salt, log_n, encrypted_file_key }
}

#[test]
fn round_trip_keeps_fields() {
    for log_n in [0u8, 9, 10, 18, 63] {
        let r = RecipientStanza { salt: [7; 16], log_n, encrypted_file_key: [9; 32] };
        let back = RecipientStanza::from_stanza(&r.to_stanza()).unwrap();
        assert_eq!(back.salt, r.salt);
        assert_eq!(back.log_n, r.log_n);
        assert_eq!(back.encrypted_file_key, r.encrypted_file_key);
    }
}

#[test]
fn serialized_fields() {
    let r = RecipientStanza { salt: [0; 16], log_n: 10, encrypted_file_key: [0; 32] };
    let st = r.to_stanza();
    assert_eq!(st.tag, "scrypt");
    assert_eq!(st.args, vec![zero_salt_arg().to_string(), "10".to_string()]);
    assert_eq!(st.body, vec![0u8; 32]);

    let r = RecipientStanza { salt: [0xff; 16], log_n: 255, encrypted_file_key: [0; 32] };
    let st = r.to_stanza();
    assert_eq!(st.args, vec![format!("{}w", "/".repeat(21)), "255".to_string()]);
}

#[test]
fn stanza_text() {
    let r = RecipientStanza { salt: [0; 16], log_n: 10, encrypted_file_key: [0; 32] };
    let expected = format!("scrypt {} 10\n{}", zero_salt_arg(), "A".repeat(43));
    assert_eq!(r.recipient_stanza(), expected.into_bytes());
}

#[test]
fn parses_valid_stanza() {
    let st = stanza("scrypt", &[zero_salt_arg(), "18"], vec![3; 32]);
    let r = RecipientStanza::from_stanza(&st).unwrap();
    assert_eq!(r.salt, [0; 16]);
    assert_eq!(r.log_n, 18);
    assert_eq!(r.encrypted_file_key, [3; 32]);
}

#[test]
fn other_tag_is_no_match() {
    let st = stanza("X25519", &[zero_salt_arg(), "18"], vec![3; 32]);
    assert!(RecipientStanza::from_stanza(&st).is_none());
}

#[test]
fn salt_of_wrong_length_is_no_match() {
    for salt in ["AAAA", "AAAAAAAAAAAAAAAAAAAAAAAA", "AAAAAAAAAAAAAAAAAAAAAAA", ""] {
        let st = stanza("scrypt", &[salt, "18"], vec![3; 32]);
        assert!(RecipientStanza::from_stanza(&st).is_none(), "{}", salt);
    }
}

#[test]
fn malformed_salt_is_no_match() {
    // padded, stray symbol, nonzero unused bits
    for salt in ["AAAAAAAAAAAAAAAAAAAAAA==", "AAAAAAAAAAAAAAAAAAAA==", "AAAAAAAAAAAAAAAAAAAA!A", "AAAAAAAAAAAAAAAAAAAAAB"] {
        let st = stanza("scrypt", &[salt, "18"], vec![3; 32]);
        assert!(RecipientStanza::from_stanza(&st).is_none(), "{}", salt);
    }
}

#[test]
fn non_numeric_cost_is_no_match() {
    for cost in ["ten", "", "-1", "256", "1 0", "0x10"] {
        let st = stanza("scrypt", &[zero_salt_arg(), cost], vec![3; 32]);
        assert!(RecipientStanza::from_stanza(&st).is_none(), "{}", cost);
    }
}

#[test]
fn body_of_wrong_length_is_no_match() {
    for n in [0usize, 16, 31, 33, 48] {
        let st = stanza("scrypt", &[zero_salt_arg(), "18"], vec![3; n]);
        assert!(RecipientStanza::from_stanza(&st).is_none(), "{}", n);
    }
}

#[test]
fn argument_count_must_be_two() {
    let st = stanza("scrypt", &[zero_salt_arg()], vec![3; 32]);
    assert!(RecipientStanza::from_stanza(&st).is_none());
    let st = stanza("scrypt", &[zero_salt_arg(), "18", "x"], vec![3; 32]);
    assert!(RecipientStanza::from_stanza(&st).is_none());
}

#[test]
fn decimal_byte_values() {
    assert_eq!(parse_u8("0"), Some(0));
    assert_eq!(parse_u8("7"), Some(7));
    assert_eq!(parse_u8("007"), Some(7));
    assert_eq!(parse_u8("+18"), Some(18));
    assert_eq!(parse_u8("255"), Some(255));
    assert_eq!(parse_u8("256"), None);
    assert_eq!(parse_u8("99999999999"), None);
    assert_eq!(parse_u8(""), None);
    assert_eq!(parse_u8("+"), None);
    assert_eq!(parse_u8("-0"), None);
    assert_eq!(parse_u8(" 1"), None);
    for s in ["0", "7", "007", "+18", "255", "256", "", "+", "-0", " 1", "٣"] {
        assert_eq!(parse_u8(s), u8::from_str_radix(s, 10).ok(), "{}", s);
    }
}

#[test]
fn work_factor_from_measure() {
    assert_eq!(target_scrypt_work_factor(None), 18);
    assert_eq!(target_scrypt_work_factor(Some(0)), 63);
    assert_eq!(target_scrypt_work_factor(Some(1)), 40);
    assert_eq!(target_scrypt_work_factor(Some(1_000_000_000)), 10);
    assert_eq!(target_scrypt_work_factor(Some(5_000_000_000)), 10);
    assert_eq!(target_scrypt_work_factor(Some(999_999_999)), 11);
    assert_eq!(target_scrypt_work_factor(Some(500_000_000)), 11);
    assert_eq!(target_scrypt_work_factor(Some(1_000_000)), 20);
}

#[test]
fn probe_derivation_is_accepted() {
    assert!(probe_derivation());
}

#[test]
fn calibrated_work_factor_is_in_range() {
    let start = std::time::Instant::now();
    probe_derivation();
    let t = target_scrypt_work_factor(Some(start.elapsed().as_nanos()));
    assert!((10..64).contains(&t));
}

#[test]
fn no_clock_gives_fallback() {
    assert_eq!(target_scrypt_work_factor(None), 18);
}

#[test]
fn excessive_work_without_ceiling() {
    let r = wrapped_stanza([0; 16], 15, "pw", [1; 16]);
    assert_eq!(
        r.unwrap_file_key("pw", None, 10).err(),
        Some(Error::ExcessiveWork { required: 15, target: 10 })
    );
    // far above any calibration: refused before a derivation that would not end
    let r = RecipientStanza { salt: [0; 16], log_n: 255, encrypted_file_key: [0; 32] };
    assert_eq!(
        r.unwrap_file_key("pw", None, 63).err(),
        Some(Error::ExcessiveWork { required: 255, target: 63 })
    );
}

#[test]
fn excessive_work_with_ceiling() {
    let r = RecipientStanza { salt: [0; 16], log_n: 40, encrypted_file_key: [0; 32] };
    assert_eq!(
        r.unwrap_file_key("pw", Some(20), 12).err(),
        Some(Error::ExcessiveWork { required: 40, target: 12 })
    );
    let r = wrapped_stanza([0; 16], 12, "pw", [1; 16]);
    assert_eq!(
        r.unwrap_file_key("pw", Some(11), 20).err(),
        Some(Error::ExcessiveWork { required: 12, target: 20 })
    );
}

#[test]
fn work_factor_scrypt_refuses() {
    let r = RecipientStanza { salt: [0; 16], log_n: 60, encrypted_file_key: [0; 32] };
    assert_eq!(
        r.unwrap_file_key("pw", Some(255), 12).err(),
        Some(Error::ExcessiveWork { required: 60, target: 12 })
    );
}

#[test]
fn bound_accepts_margin() {
    let r = wrapped_stanza([5; 16], 14, "secret", [2; 16]);
    let k = r.unwrap_file_key("secret", None, 10).unwrap().unwrap();
    assert_eq!(k.expose_secret(), &[2; 16]);
}

#[test]
fn unwrap_recovers_file_key() {
    let r = wrapped_stanza([0x42; 16], 11, "correct horse", [0xa5; 16]);
    let parsed = RecipientStanza::from_stanza(&r.to_stanza()).unwrap();
    let k = parsed.unwrap_file_key("correct horse", None, target_scrypt_work_factor(None)).unwrap().unwrap();
    assert_eq!(k.expose_secret(), &[0xa5; 16]);
}

#[test]
fn zero_salt_example() {
    let r = wrapped_stanza([0; 16], 10, "passphrase", [1; 16]);
    let parsed = RecipientStanza::from_stanza(&r.to_stanza()).unwrap();
    assert_eq!(parsed.log_n, 10);
    let k = parsed.unwrap_file_key("passphrase", None, 10).unwrap().unwrap();
    assert_eq!(k.expose_secret(), &[1; 16]);
}

#[test]
fn wrong_passphrase_fails_decryption() {
    let r = wrapped_stanza([9; 16], 10, "right", [3; 16]);
    assert_eq!(r.unwrap_file_key("wrong", None, 10).err(), Some(Error::DecryptionFailed));
    assert_eq!(r.unwrap_file_key("wrong", Some(10), 63).err(), Some(Error::DecryptionFailed));
}

#[test]
fn corrupted_wrapped_key_fails_decryption() {
    let mut r = wrapped_stanza([9; 16], 10, "right", [3; 16]);
    r.encrypted_file_key[31] ^= 1;
    assert_eq!(r.unwrap_file_key("right", None, 10).err(), Some(Error::DecryptionFailed));
    let mut r = wrapped_stanza([9; 16], 10, "right", [3; 16]);
    r.salt[0] ^= 1;
    assert_eq!(r.unwrap_file_key("right", None, 10).err(), Some(Error::DecryptionFailed));
}
