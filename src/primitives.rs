//! The cryptographic primitives and the stanza writer that this recipient
//! relies on.
use vstd::prelude::*;

verus! {

/// The 32-byte key that scrypt (r = 8, p = 1) derives from a passphrase
/// under a salt at cost 2^log_n.
pub uninterp spec fn scrypt_key(salt: Seq<u8>, log_n: u8, passphrase: Seq<char>) -> Seq<u8>;

/// What ChaCha20-Poly1305 under a key and the all-zero nonce makes of a
/// ciphertext with its tag: the plaintext, or nothing when the tag does not
/// authenticate it.
pub uninterp spec fn chacha_open(key: Seq<u8>, ciphertext: Seq<u8>) -> Option<Seq<u8>>;

/// The text of a stanza: its tag and arguments separated by spaces, then,
/// if the body is not empty, a newline and the body in unpadded base64
/// wrapped at 64 columns.
pub uninterp spec fn stanza_text(tag: Seq<char>, args: Seq<Seq<char>>, body: Seq<u8>) -> Seq<u8>;

/// Whether scrypt's parameters with r = 8 and p = 1 accept `log_n`: the
/// work area of 2^log_n blocks of 1024 bytes must be addressable.
pub open spec fn scrypt_accepts(log_n: u8) -> bool {
    (log_n as int) + 10 < usize::BITS as int
}

/// Relies on `scrypt::ScryptParams::new(log_n, 8, 1)`, which fails exactly
/// when `1024 << log_n` overflows a usize, and on `scrypt::scrypt`, which
/// fills a 32-byte output without failing.
#[verifier::external_body]
pub(crate) fn derive_key(salt: &[u8], log_n: u8, passphrase: &str) -> (r: Option<[u8; 32]>)
    ensures
        r is Some <==> scrypt_accepts(log_n),
        r is Some ==> r->Some_0@ == scrypt_key(salt@, log_n, passphrase@),
{
    let params = scrypt::ScryptParams::new(log_n, 8, 1).ok()?;
    let mut output = [0u8; 32];
    scrypt::scrypt(passphrase.as_bytes(), salt, &params, &mut output).ok()?;
    Some(output)
}

/// Relies on `age_core::primitives::aead_decrypt`: ChaCha20-Poly1305 with
/// the zero nonce, which on success returns the ciphertext less its 16-byte
/// tag, decrypted.
#[verifier::external_body]
pub(crate) fn aead_open(key: &[u8; 32], ciphertext: &[u8]) -> (r: Option<Vec<u8>>)
    ensures
        r is Some <==> chacha_open(key@, ciphertext@) is Some,
        r is Some ==> r->Some_0@ == chacha_open(key@, ciphertext@)->Some_0,
        r is Some ==> r->Some_0@.len() + 16 == ciphertext@.len(),
{
    age_core::primitives::aead_decrypt(key, ciphertext).ok()
}

/// Relies on `age_core::format::write::age_stanza`, run by
/// `cookie_factory::gen_simple` into a `Vec`, which cannot fail to take
/// the bytes.
#[verifier::external_body]
pub(crate) fn write_stanza(tag: &str, args: &Vec<String>, body: &[u8]) -> (r: Vec<u8>)
    ensures
        r@ == stanza_text(tag@, args@.map_values(|a: String| a@), body@),
{
    match cookie_factory::gen_simple(age_core::format::write::age_stanza(tag, args, body), Vec::new()) {
        Ok(w) => w,
        Err(_) => Vec::new(),
    }
}

/// Relies on `Zeroize` (re-exported by `secrecy`) for byte arrays: every
/// byte is set to zero, by volatile writes that the compiler keeps.
#[verifier::external_body]
pub(crate) fn wipe_key(key: &mut [u8; 16])
    ensures
        final(key)@ == Seq::new(16, |_i: int| 0u8),
    opens_invariants none
    no_unwind
{
    secrecy::Zeroize::zeroize(key)
}

} // verus!
