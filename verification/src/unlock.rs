//! The decisions around unlocking a drive and starting the next stage:
//! which prompt to show, how the typed password becomes the Opal
//! credential, what an attempt to open a session leads to, and the checks
//! on the image and its load options.
use vstd::prelude::*;

use crate::error::Error;

verus! {

/// Rounds of PBKDF2 that turn the password into the drive credential.
pub const KEY_DERIVATION_ROUNDS: u32 = 75000;

/// Length in bytes of the drive credential.
pub const KEY_LENGTH: usize = 32;

/// The PBKDF2-HMAC-SHA1 output of `len` bytes for `password`, `salt` and
/// `rounds`, as the `pbkdf2` crate computes it.
pub uninterp spec fn pbkdf2_hmac_sha1(password: Seq<u8>, salt: Seq<u8>, rounds: u32, len: nat) -> Seq<u8>;

#[verifier::external_type_specification]
#[verifier::external_body]
pub struct ExInvalidLength(hmac::digest::InvalidLength);

/// `pbkdf2::pbkdf2::<hmac::Hmac<sha1::Sha1>>` filling a buffer of `len`
/// bytes. Its only error comes from keying the PRF, and `Hmac` accepts keys
/// of any length (`HmacCore::new_from_slice` always returns `Ok`), so the
/// contract claims success, a key of `len` bytes, and that the key is the
/// PBKDF2-HMAC-SHA1 value of the arguments (named, not stated).
#[verifier::external_body]
fn pbkdf2_hmac_sha1_key(password: &[u8], salt: &[u8], rounds: u32, len: usize) -> (r: Result<
    Vec<u8>,
    hmac::digest::InvalidLength,
>)
    ensures
        r is Ok,
        r matches Ok(key) ==> key@.len() == len && key@ == pbkdf2_hmac_sha1(
            password@,
            salt@,
            rounds,
            len as nat,
        ),
{
    let mut key = vec![0u8; len];
    match pbkdf2::pbkdf2::<hmac::Hmac<sha1::Sha1>>(password, salt, rounds, &mut key) {
        Ok(()) => Ok(key),
        Err(e) => Err(e),
    }
}

/// The Opal credential for a typed password: PBKDF2-HMAC-SHA1 over the
/// password's UTF-8 bytes, salted with the drive's serial number, 75000
/// rounds, 32 bytes (as sedutil-cli derives it).
pub fn derive_unlock_key(password: &str, serial: &[u8]) -> (key: Vec<u8>)
    ensures
        key@.len() == KEY_LENGTH,
        key@ == pbkdf2_hmac_sha1(
            vstd::utf8::encode_utf8(password@),
            serial@,
            KEY_DERIVATION_ROUNDS,
            KEY_LENGTH as nat,
        ),
{
    let bytes = password.as_bytes();
    pbkdf2_hmac_sha1_key(bytes, serial, KEY_DERIVATION_ROUNDS, KEY_LENGTH).unwrap()
}

/// The prompt for the first attempt.
pub fn first_prompt<'a>(configured: Option<&'a str>) -> (r: &'a str)
    ensures
        r@ == (match configured {
            Some(p) => p@,
            None => "password: "@,
        }),
{
    match configured {
        Some(p) => p,
        None => "password: ",
    }
}

/// The prompt after a refused password.
pub fn retry_prompt<'a>(configured: Option<&'a str>) -> (r: &'a str)
    ensures
        r@ == (match configured {
            Some(p) => p@,
            None => "bad password, retry: "@,
        }),
{
    match configured {
        Some(p) => p,
        None => "bad password, retry: ",
    }
}

/// The message shown before the reset that follows a lock-out.
pub fn locked_out_message<'a>(configured: Option<&'a str>) -> (r: &'a str)
    ensures
        r@ == (match configured {
            Some(p) => p@,
            None => "Too many bad tries, SED locked out, resetting in 10s.."@,
        }),
{
    match configured {
        Some(p) => p,
        None => "Too many bad tries, SED locked out, resetting in 10s..",
    }
}

/// How an attempt to open an Opal session with the derived credential
/// ended.
#[derive(Clone, Copy, Debug, PartialEq, Eq, Structural)]
pub enum SessionOutcome {
    /// The session is open.
    Opened,
    /// The drive answered NOT_AUTHORIZED: the password was wrong.
    NotAuthorized,
    /// The drive answered AUTHORITY_LOCKED_OUT: too many wrong passwords.
    AuthorityLockedOut,
    /// Any other failure.
    Failed,
}

/// What follows an attempt.
#[derive(Clone, Copy, Debug, PartialEq, Eq, Structural)]
pub enum AttemptAction {
    /// Unlock the drive through the open session.
    Unlock,
    /// Ask again, clearing the screen first when so configured.
    Retry { clear_screen: bool },
    /// Show the lock-out message, wait ten seconds and reset the machine.
    LockedOut,
    /// Give up with the session's error.
    Abort,
}

/// The action that follows an attempt: a wrong password is asked for
/// again, a lock-out resets the machine, any other failure ends the run.
pub fn attempt_action(outcome: SessionOutcome, clear_on_retry: bool) -> (r: AttemptAction)
    ensures
        r == (match outcome {
            SessionOutcome::Opened => AttemptAction::Unlock,
            SessionOutcome::NotAuthorized => AttemptAction::Retry { clear_screen: clear_on_retry },
            SessionOutcome::AuthorityLockedOut => AttemptAction::LockedOut,
            SessionOutcome::Failed => AttemptAction::Abort,
        }),
{
    match outcome {
        SessionOutcome::Opened => AttemptAction::Unlock,
        SessionOutcome::NotAuthorized => AttemptAction::Retry { clear_screen: clear_on_retry },
        SessionOutcome::AuthorityLockedOut => AttemptAction::LockedOut,
        SessionOutcome::Failed => AttemptAction::Abort,
    }
}

/// Whether `image` starts with the PE/COFF (DOS) signature `MZ`.
pub open spec fn has_pe_signature(image: Seq<u8>) -> bool {
    image.len() >= 2 && image[0] == 0x4d && image[1] == 0x5a
}

/// Refuses an image that does not start with the PE/COFF signature.
pub fn check_pe_image(image: &[u8]) -> (r: Result<(), Error>)
    ensures
        r is Ok <==> has_pe_signature(image@),
        r is Ok <==> (image@.len() >= 2 && image@[0] == 0x4d && image@[1] == 0x5a),
        r is Err ==> r == Err::<(), Error>(Error::ImageNotPeCoff),
{
    proof {
        lemma_pe_signature_needs_both_bytes(image@);
    }
    if image.len() >= 2 && image[0] == 0x4d && image[1] == 0x5a {
        Ok(())
    } else {
        Err(Error::ImageNotPeCoff)
    }
}

/// Why text cannot be written as a UCS-2 string.
#[derive(Clone, Copy, Debug, PartialEq, Eq, Structural)]
pub enum Ucs2Error {
    /// A character lies outside the Basic Multilingual Plane.
    InvalidChar,
    /// The text holds a NUL character.
    InteriorNul,
}

/// Every character of `s` is a UCS-2 character other than NUL.
pub open spec fn is_ucs2_text(s: Seq<char>) -> bool {
    forall|i: int| 0 <= i < s.len() ==> 0 < (#[trigger] s[i] as u32) && (s[i] as u32) < 0x10000
}

/// The code units of `s` followed by a terminating NUL.
pub open spec fn ucs2_with_nul(s: Seq<char>) -> Seq<u16> {
    s.map_values(|c: char| (c as u32) as u16).push(0)
}

/// `uefi::CString16::try_from(&str)`, read back with
/// `to_u16_slice_with_nul`. The uefi source encodes the text as UTF-16,
/// refuses a surrogate unit (a character outside the BMP) as `InvalidChar`
/// and a NUL as `InteriorNul`, and appends a NUL. The contract claims
/// exactly that, without saying which error comes when the text holds both
/// kinds of offending character.
#[verifier::external_body]
fn uefi_cstring16(text: &str) -> (r: Result<Vec<u16>, Ucs2Error>)
    ensures
        r is Ok <==> is_ucs2_text(text@),
        r matches Ok(units) ==> units@ == ucs2_with_nul(text@),
        r matches Err(Ucs2Error::InvalidChar) ==> exists|i: int|
            0 <= i < text@.len() && (#[trigger] text@[i] as u32) >= 0x10000,
        r matches Err(Ucs2Error::InteriorNul) ==> exists|i: int|
            0 <= i < text@.len() && (#[trigger] text@[i] as u32) == 0,
{
    match uefi::CString16::try_from(text) {
        Ok(s) => Ok(s.to_u16_slice_with_nul().to_vec()),
        Err(uefi::data_types::FromStrError::InvalidChar) => Err(Ucs2Error::InvalidChar),
        Err(uefi::data_types::FromStrError::InteriorNul) => Err(Ucs2Error::InteriorNul),
    }
}

/// The load options handed to the next image: the configured arguments as
/// a NUL-terminated UCS-2 string.
pub fn load_options(args: &str) -> (r: Result<Vec<u16>, Error>)
    ensures
        r is Ok <==> is_ucs2_text(args@),
        r matches Ok(units) ==> units@ == ucs2_with_nul(args@),
        r is Err ==> r == Err::<Vec<u16>, Error>(Error::ConfigArgsBadUtf16),
{
    match uefi_cstring16(args) {
        Ok(units) => Ok(units),
        Err(_) => Err(Error::ConfigArgsBadUtf16),
    }
}

/// The configuration file as read from the unlocker's own volume: missing
/// when the name does not denote a regular file.
pub fn config_contents(read: Option<Vec<u8>>) -> (r: Result<Vec<u8>, Error>)
    ensures
        match read {
            Some(bytes) => r == Ok::<Vec<u8>, Error>(bytes),
            None => r == Err::<Vec<u8>, Error>(Error::ConfigMissing),
        },
{
    match read {
        Some(bytes) => Ok(bytes),
        None => Err(Error::ConfigMissing),
    }
}

/// The image to start, from the outcome of reading the file `image_name`
/// on the boot partition: any failure to read it (not found or otherwise,
/// given by the firmware status) is `ImageNotFound`, and the image must
/// carry the PE/COFF signature. A name that denotes a directory is refused
/// by the caller beforehand.
pub fn image_to_start(image_name: &str, read: Result<Option<Vec<u8>>, usize>) -> (r: Result<
    Vec<u8>,
    Error,
>)
    requires
        !(read matches Ok(None)),
    ensures
        match read {
            Err(_) => r matches Err(Error::ImageNotFound(name)) && name@ == image_name@,
            Ok(Some(image)) => if has_pe_signature(image@) {
                r == Ok::<Vec<u8>, Error>(image)
            } else {
                r == Err::<Vec<u8>, Error>(Error::ImageNotPeCoff)
            },
            Ok(None) => false,
        },
{
    match read {
        Err(_) => Err(Error::ImageNotFound(String::from_str(image_name))),
        Ok(file) => {
            let image = file.unwrap();
            match check_pe_image(image.as_slice()) {
                Ok(()) => Ok(image),
                Err(e) => Err(e),
            }
        },
    }
}

/// An image passes the signature check exactly when its first two bytes
/// are `M` (0x4d) then `Z` (0x5a); one of them alone is not enough.
pub proof fn lemma_pe_signature_needs_both_bytes(image: Seq<u8>)
    ensures
        has_pe_signature(image) <==> (image.len() >= 2 && image[0] == 0x4d && image[1] == 0x5a),
        image.len() >= 2 && image[0] != 0x4d ==> !has_pe_signature(image),
        image.len() >= 2 && image[1] != 0x5a ==> !has_pe_signature(image),
{
}

} // verus!
