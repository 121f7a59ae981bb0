use sed_unlock::error::Error;
use sed_unlock::unlock::{
    attempt_action, check_pe_image, config_contents, derive_unlock_key, image_to_start, first_prompt, load_options,
    locked_out_message, retry_prompt, AttemptAction, SessionOutcome,
};

#[test]
fn unlock_key_is_pbkdf2_hmac_sha1_over_the_serial() {
    let serial = b"S3XNNF0K123456  ";
    let key = derive_unlock_key("correct horse", serial);
    let mut expected = [0u8; 32];
    pbkdf2::pbkdf2::<hmac::Hmac<sha1::Sha1>>(b"correct horse", serial, 75000, &mut expected).unwrap();
    assert_eq!(key, expected.to_vec());
    assert_ne!(key, b"correct horse".to_vec());
    // the salt matters
    assert_ne!(derive_unlock_key("correct horse", b"other"), key);
}

#[test]
fn unlock_key_uses_utf8_bytes() {
    let mut expected = [0u8; 32];
    pbkdf2::pbkdf2::<hmac::Hmac<sha1::Sha1>>("pässwörd".as_bytes(), b"sn", 75000, &mut expected).unwrap();
    assert_eq!(derive_unlock_key("pässwörd", b"sn"), expected.to_vec());
}

#[test]
fn prompts_fall_back_to_defaults() {
    assert_eq!(first_prompt(None), "password: ");
    assert_eq!(first_prompt(Some("Disk key: ")), "Disk key: ");
    assert_eq!(retry_prompt(None), "bad password, retry: ");
    assert_eq!(retry_prompt(Some("again: ")), "again: ");
    assert_eq!(
        locked_out_message(None),
        "Too many bad tries, SED locked out, resetting in 10s.."
    );
    assert_eq!(locked_out_message(Some("locked")), "locked");
}

#[test]
fn attempt_outcomes() {
    assert_eq!(attempt_action(SessionOutcome::Opened, true), AttemptAction::Unlock);
    assert_eq!(
        attempt_action(SessionOutcome::NotAuthorized, true),
        AttemptAction::Retry { clear_screen: true }
    );
    assert_eq!(
        attempt_action(SessionOutcome::NotAuthorized, false),
        AttemptAction::Retry { clear_screen: false }
    );
    assert_eq!(attempt_action(SessionOutcome::AuthorityLockedOut, false), AttemptAction::LockedOut);
    assert_eq!(attempt_action(SessionOutcome::Failed, false), AttemptAction::Abort);
}

#[test]
fn pe_signature_check() {
    assert_eq!(check_pe_image(&[0x4d, 0x5a, 0x90, 0x00]), Ok(()));
    assert_eq!(check_pe_image(&[0x4d, 0x5a]), Ok(()));
    assert_eq!(check_pe_image(&[0x4d]), Err(Error::ImageNotPeCoff));
    assert_eq!(check_pe_image(&[]), Err(Error::ImageNotPeCoff));
    assert_eq!(check_pe_image(&[0x7f, b'E', b'L', b'F']), Err(Error::ImageNotPeCoff));
}

#[test]
fn load_options_are_nul_terminated_ucs2() {
    assert_eq!(load_options("root=/dev/sda2 ro"), Ok("root=/dev/sda2 ro\0".encode_utf16().collect()));
    assert_eq!(load_options(""), Ok(vec![0]));
    assert_eq!(load_options("é€"), Ok(vec![0xe9, 0x20ac, 0]));
    assert_eq!(load_options("a\0b"), Err(Error::ConfigArgsBadUtf16));
    assert_eq!(load_options("emoji \u{1F600}"), Err(Error::ConfigArgsBadUtf16));
}

#[test]
fn image_read_outcomes() {
    assert_eq!(
        image_to_start("vmlinuz.efi", Err(0x8000_0000_0000_000e)),
        Err(Error::ImageNotFound("vmlinuz.efi".to_string()))
    );
    assert_eq!(
        image_to_start("vmlinuz.efi", Err(0x8000_0000_0000_0007)),
        Err(Error::ImageNotFound("vmlinuz.efi".to_string()))
    );
    assert_eq!(
        image_to_start("x", Ok(Some(vec![0x4d, 0x5a, 1, 2]))),
        Ok(vec![0x4d, 0x5a, 1, 2])
    );
    assert_eq!(image_to_start("x", Ok(Some(vec![1, 2]))), Err(Error::ImageNotPeCoff));
}

#[test]
fn config_file_presence() {
    assert_eq!(config_contents(Some(b"image=a".to_vec())), Ok(b"image=a".to_vec()));
    assert_eq!(config_contents(None), Err(Error::ConfigMissing));
}
