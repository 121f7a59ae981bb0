//! Verified core of a UEFI pre-boot unlocker for Opal self-encrypting drives.
pub mod console;
pub mod error;
pub mod guid;
pub mod keymap;
pub mod keystrokes;
pub mod partition;
pub mod password;
pub mod screen;
pub mod unlock;
