//! The passphrase recipient of the age file encryption format: its stanza,
//! the calibration of its scrypt cost, and the unwrapping of a file key.
pub mod encoding;
pub mod primitives;
pub mod recipient;
