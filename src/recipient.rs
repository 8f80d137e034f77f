//! The passphrase recipient stanza: cost calibration, parsing and
//! serialization, and unwrapping of the file key.
use age_core::format::Stanza;
use vstd::prelude::*;
use vstd::string::StringSliceAdditionalSpecFns;

use crate::encoding::{
    b64_encode, decimal, decimal_u8, decode_b64, decimal_string, encode_b64, parse_u8,
    lemma_b64_encode_injective, lemma_decimal_round_trip,
};
use crate::primitives::{
    aead_open, chacha_open, derive_key, scrypt_accepts, scrypt_key,
    stanza_text, wipe_key, write_stanza,
};

verus! {

#[verifier::external_type_specification]
pub struct ExStanza(Stanza);

/// The tag that marks a stanza as this recipient's.
pub const SCRYPT_RECIPIENT_TAG: &'static str = "scrypt";

/// What precedes the stanza's salt in the salt that scrypt is given.
pub const SCRYPT_SALT_LABEL: &'static str = "age-encryption.org/v1/scrypt";

pub const SALT_LEN: usize = 16;

pub const ENCRYPTED_FILE_KEY_BYTES: usize = 32;

pub const FILE_KEY_BYTES: usize = 16;

/// The work factor that is timed: cheap on any device.
pub const PROBE_WORK_FACTOR: u8 = 10;

/// The work factor taken when the clock gives no measure: about one second
/// on a current machine.
pub const FALLBACK_WORK_FACTOR: u8 = 18;

/// The largest work factor that the calibration returns.
pub const MAX_WORK_FACTOR: u8 = 63;

/// The duration that the calibration aims at, in nanoseconds.
pub const ONE_SECOND_NANOS: u128 = 1_000_000_000;

/// How far above the calibrated work factor a stanza may go when the caller
/// sets no ceiling: a factor of sixteen in cost.
pub const WORK_FACTOR_MARGIN: u8 = 4;

/// The work factor reached from `log_n` when a derivation at `log_n` took
/// `elapsed` nanoseconds: each step doubles the time and adds one, until the
/// time reaches a second or the work factor reaches the largest.
pub open spec fn doubled_work_factor(elapsed: nat, log_n: nat) -> nat
    decreases MAX_WORK_FACTOR - log_n,
{
    if elapsed < ONE_SECOND_NANOS && log_n < MAX_WORK_FACTOR {
        doubled_work_factor(elapsed * 2, log_n + 1)
    } else {
        log_n
    }
}

/// The work factor chosen for a measured duration of the probe derivation,
/// or for no measure at all.
pub open spec fn work_factor_of(elapsed: Option<u128>) -> nat {
    match elapsed {
        Some(d) => doubled_work_factor(d as nat, PROBE_WORK_FACTOR as nat),
        None => FALLBACK_WORK_FACTOR as nat,
    }
}

proof fn lemma_doubled_bounds(elapsed: nat, log_n: nat)
    requires
        log_n <= MAX_WORK_FACTOR,
    ensures
        log_n <= doubled_work_factor(elapsed, log_n) <= MAX_WORK_FACTOR,
    decreases MAX_WORK_FACTOR - log_n,
{
    if elapsed < ONE_SECOND_NANOS && log_n < MAX_WORK_FACTOR {
        lemma_doubled_bounds(elapsed * 2, log_n + 1);
    }
}

/// Picks an scrypt work factor that takes around one second on this device,
/// from the time (in nanoseconds) that `probe_derivation` took: the time is
/// doubled and the work factor raised until it reaches a second or 63.
/// Without a measure (no usable wall clock) it is the fallback, 18. Never
/// 64 or more.
pub fn target_scrypt_work_factor(elapsed: Option<u128>) -> (r: u8)
    ensures
        r as nat == work_factor_of(elapsed),
        PROBE_WORK_FACTOR <= r <= MAX_WORK_FACTOR,
{
    match elapsed {
        Some(start) => {
            let mut d: u128 = start;
            let mut log_n: u8 = PROBE_WORK_FACTOR;
            proof {
                lemma_doubled_bounds(start as nat, log_n as nat);
            }
            while d < ONE_SECOND_NANOS && log_n < MAX_WORK_FACTOR
                invariant
                    PROBE_WORK_FACTOR <= log_n <= MAX_WORK_FACTOR,
                    doubled_work_factor(d as nat, log_n as nat) == doubled_work_factor(
                        start as nat,
                        PROBE_WORK_FACTOR as nat,
                    ),
                decreases MAX_WORK_FACTOR - log_n,
            {
                log_n = log_n + 1;
                d = d * 2;
            }
            log_n
        },
        None => FALLBACK_WORK_FACTOR,
    }
}

/// The derivation whose duration calibrates the work factor: the probe
/// work factor, an empty salt and an empty passphrase. Scrypt accepts it on
/// any target.
pub fn probe_derivation() -> (r: bool)
    ensures
        r == scrypt_accepts(PROBE_WORK_FACTOR),
{
    let empty: Vec<u8> = Vec::new();
    let key = derive_key(empty.as_slice(), PROBE_WORK_FACTOR, "");
    key.is_some()
}

/// Why a stanza did not yield its file key.
#[derive(Debug, Clone, Copy, PartialEq, Eq, Structural)]
pub enum Error {
    /// The tag did not authenticate the wrapped key under the derived key.
    DecryptionFailed,
    /// The stanza asks for more work than is allowed.
    ExcessiveWork { required: u8, target: u8 },
}

/// A file key, as unwrapped from a stanza.
pub struct FileKey(pub [u8; 16]);

impl FileKey {
    pub open spec fn view(&self) -> Seq<u8> {
        self.0@
    }

    pub fn expose_secret(&self) -> (r: &[u8; 16])
        ensures
            r@ == self.view(),
    {
        &self.0
    }
}

impl Drop for FileKey {
    /// The key's bytes do not outlive it.
    fn drop(&mut self)
        opens_invariants none
        no_unwind
    {
        wipe_key(&mut self.0);
    }
}

/// The passphrase recipient stanza: a salt, an scrypt work factor (log2 of
/// its cost) and the file key wrapped under the derived key.
#[derive(Debug)]
pub struct RecipientStanza {
    pub salt: [u8; 16],
    pub log_n: u8,
    pub encrypted_file_key: [u8; 32],
}

/// Whether a salt argument is the encoding of a 16-byte salt.
pub open spec fn is_salt_arg(s: Seq<char>) -> bool {
    exists|b: Seq<u8>| b.len() == SALT_LEN && b64_encode(b) == s
}

/// Whether a stanza is one of this recipient's, well formed: its tag, a salt
/// argument, a work factor argument, and a 32-byte body.
pub open spec fn stanza_matches(st: Stanza) -> bool {
    &&& st.tag@ == SCRYPT_RECIPIENT_TAG@
    &&& st.args@.len() == 2
    &&& is_salt_arg(st.args@[0]@)
    &&& decimal_u8(st.args@[1]@) is Some
    &&& st.body@.len() == ENCRYPTED_FILE_KEY_BYTES
}

/// Whether `r` holds what the arguments and body of `st` encode.
pub open spec fn parses_to(st: Stanza, r: RecipientStanza) -> bool {
    &&& b64_encode(r.salt@) == st.args@[0]@
    &&& decimal_u8(st.args@[1]@) == Some(r.log_n)
    &&& r.encrypted_file_key@ == st.body@
}

/// Whether `st` is the stanza that `r` is written as.
pub open spec fn serializes_to(r: RecipientStanza, st: Stanza) -> bool {
    &&& st.tag@ == SCRYPT_RECIPIENT_TAG@
    &&& st.args@.len() == 2
    &&& st.args@[0]@ == b64_encode(r.salt@)
    &&& st.args@[1]@ == decimal(r.log_n as nat)
    &&& st.body@ == r.encrypted_file_key@
}

pub open spec fn same_fields(a: RecipientStanza, b: RecipientStanza) -> bool {
    &&& a.salt@ == b.salt@
    &&& a.log_n == b.log_n
    &&& a.encrypted_file_key@ == b.encrypted_file_key@
}

/// The largest work factor accepted: the caller's, or the margin above the
/// calibrated one.
pub open spec fn work_factor_ceiling(max_work_factor: Option<u8>, target: u8) -> int {
    match max_work_factor {
        Some(m) => m as int,
        None => target as int + WORK_FACTOR_MARGIN as int,
    }
}

/// The salt that scrypt is given: the label, then the stanza's salt.
pub open spec fn derivation_salt(salt: Seq<u8>) -> Seq<u8> {
    SCRYPT_SALT_LABEL.spec_bytes() + salt
}

/// What a stanza yields once its work factor is within bounds: derivation,
/// then decryption of the wrapped key.
pub open spec fn derived_outcome(s: RecipientStanza, passphrase: Seq<char>, target: u8) -> Result<
    Seq<u8>,
    Error,
> {
    if !scrypt_accepts(s.log_n) {
        Err(Error::ExcessiveWork { required: s.log_n, target })
    } else {
        match chacha_open(
            scrypt_key(derivation_salt(s.salt@), s.log_n, passphrase),
            s.encrypted_file_key@,
        ) {
            Some(pt) => Ok(pt),
            None => Err(Error::DecryptionFailed),
        }
    }
}

/// What unwrapping a stanza yields, for a calibrated work factor `target`:
/// a stanza above the ceiling is refused before any derivation.
pub open spec fn unwrap_outcome(
    s: RecipientStanza,
    passphrase: Seq<char>,
    max_work_factor: Option<u8>,
    target: u8,
) -> Result<Seq<u8>, Error> {
    if s.log_n > work_factor_ceiling(max_work_factor, target) {
        Err(Error::ExcessiveWork { required: s.log_n, target })
    } else {
        derived_outcome(s, passphrase, target)
    }
}

/// Whether an unwrap result is the outcome `o`: the file key on success.
pub open spec fn yields(r: Result<Option<FileKey>, Error>, o: Result<Seq<u8>, Error>) -> bool {
    match r {
        Ok(Some(k)) => o == Ok::<Seq<u8>, Error>(k.view()),
        Ok(None) => false,
        Err(e) => o == Err::<Seq<u8>, Error>(e),
    }
}

proof fn lemma_encoding_unpadded(b: Seq<u8>)
    ensures
        !b64_encode(b).contains('='),
    decreases b.len(),
{
    let e = b64_encode(b);
    if b.len() >= 3 {
        lemma_encoding_unpadded(b.subrange(3, b.len() as int));
    }
    assert forall|i: int| 0 <= i < e.len() implies e[i] != '=' by {
        if b.len() >= 3 && i >= 4 {
            let rest = b64_encode(b.subrange(3, b.len() as int));
            assert(e[i] == rest[i - 4]);
        }
    }
}

fn copy_salt(v: &Vec<u8>) -> (r: [u8; 16])
    requires
        v@.len() == SALT_LEN,
    ensures
        r@ == v@,
{
    let mut r = [0u8; 16];
    let mut i: usize = 0;
    while i < SALT_LEN
        invariant
            i <= SALT_LEN,
            v@.len() == SALT_LEN,
            r@.len() == SALT_LEN,
            forall|j: int| 0 <= j < i ==> r@[j] == v@[j],
        decreases SALT_LEN - i,
    {
        r[i] = v[i];
        i = i + 1;
    }
    assert(r@ =~= v@);
    r
}

fn copy_wrapped_key(v: &Vec<u8>) -> (r: [u8; 32])
    requires
        v@.len() == ENCRYPTED_FILE_KEY_BYTES,
    ensures
        r@ == v@,
{
    let mut r = [0u8; 32];
    let mut i: usize = 0;
    while i < ENCRYPTED_FILE_KEY_BYTES
        invariant
            i <= ENCRYPTED_FILE_KEY_BYTES,
            v@.len() == ENCRYPTED_FILE_KEY_BYTES,
            r@.len() == ENCRYPTED_FILE_KEY_BYTES,
            forall|j: int| 0 <= j < i ==> r@[j] == v@[j],
        decreases ENCRYPTED_FILE_KEY_BYTES - i,
    {
        r[i] = v[i];
        i = i + 1;
    }
    assert(r@ =~= v@);
    r
}

fn copy_file_key(v: &Vec<u8>) -> (r: [u8; 16])
    requires
        v@.len() == FILE_KEY_BYTES,
    ensures
        r@ == v@,
{
    let mut r = [0u8; 16];
    let mut i: usize = 0;
    while i < FILE_KEY_BYTES
        invariant
            i <= FILE_KEY_BYTES,
            v@.len() == FILE_KEY_BYTES,
            r@.len() == FILE_KEY_BYTES,
            forall|j: int| 0 <= j < i ==> r@[j] == v@[j],
        decreases FILE_KEY_BYTES - i,
    {
        r[i] = v[i];
        i = i + 1;
    }
    assert(r@ =~= v@);
    r
}

/// Whether a text holds an `=`.
fn has_padding(s: &str) -> (r: bool)
    ensures
        r == s@.contains('='),
{
    let n = s.unicode_len();
    let mut i: usize = 0;
    while i < n
        invariant
            i <= n,
            n == s@.len(),
            forall|j: int| 0 <= j < i ==> s@[j] != '=',
        decreases n - i,
    {
        if s.get_char(i) == '=' {
            return true;
        }
        i = i + 1;
    }
    false
}

/// Reads a salt argument: unpadded base64 of exactly 16 bytes.
fn parse_salt(s: &str) -> (r: Option<[u8; 16]>)
    ensures
        r is Some <==> is_salt_arg(s@),
        r is Some ==> b64_encode(r->Some_0@) == s@,
{
    if has_padding(s) {
        assert forall|b: Seq<u8>| b.len() == SALT_LEN implies b64_encode(b) != s@ by {
            lemma_encoding_unpadded(b);
        }
        return None;
    }
    match decode_b64(s) {
        Some(v) => {
            if v.len() == SALT_LEN {
                Some(copy_salt(&v))
            } else {
                None
            }
        },
        None => None,
    }
}

impl RecipientStanza {
    /// Reads a stanza as this recipient's; nothing when it is not one, or
    /// not a well-formed one.
    pub fn from_stanza(stanza: &Stanza) -> (r: Option<Self>)
        ensures
            r is Some <==> stanza_matches(*stanza),
            r is Some ==> parses_to(*stanza, r->Some_0),
    {
        let tag = SCRYPT_RECIPIENT_TAG.to_owned();
        if stanza.tag != tag {
            return None;
        }
        if stanza.args.len() != 2 {
            return None;
        }
        let salt = match parse_salt(stanza.args[0].as_str()) {
            Some(salt) => salt,
            None => return None,
        };
        let log_n = match parse_u8(stanza.args[1].as_str()) {
            Some(log_n) => log_n,
            None => return None,
        };
        if stanza.body.len() != ENCRYPTED_FILE_KEY_BYTES {
            return None;
        }
        let encrypted_file_key = copy_wrapped_key(&stanza.body);
        Some(RecipientStanza { salt, log_n, encrypted_file_key })
    }

    /// Writes this recipient's fields as a generic stanza.
    pub fn to_stanza(&self) -> (r: Stanza)
        ensures
            serializes_to(*self, r),
    {
        let mut args: Vec<String> = Vec::new();
        args.push(encode_b64(self.salt.as_slice()));
        args.push(decimal_string(self.log_n));
        let mut body: Vec<u8> = Vec::new();
        body.extend_from_slice(self.encrypted_file_key.as_slice());
        assert(body@ =~= self.encrypted_file_key@);
        Stanza { tag: SCRYPT_RECIPIENT_TAG.to_owned(), args, body }
    }

    /// The text of this recipient's stanza in a header.
    pub fn recipient_stanza(&self) -> (r: Vec<u8>)
        ensures
            r@ == stanza_text(
                SCRYPT_RECIPIENT_TAG@,
                seq![b64_encode(self.salt@), decimal(self.log_n as nat)],
                self.encrypted_file_key@,
            ),
    {
        let st = self.to_stanza();
        let r = write_stanza(SCRYPT_RECIPIENT_TAG, &st.args, st.body.as_slice());
        assert(st.args@.map_values(|a: String| a@) =~= seq![
            b64_encode(self.salt@),
            decimal(self.log_n as nat),
        ]);
        r
    }

    /// Unwraps the file key with the passphrase, refusing a work factor
    /// above `max_work_factor`, or, without one, more than four above the
    /// calibrated `target` (see `target_scrypt_work_factor`). The work factor
    /// is checked against the ceiling before anything is derived.
    pub fn unwrap_file_key(
        &self,
        passphrase: &str,
        max_work_factor: Option<u8>,
        target: u8,
    ) -> (r: Result<Option<FileKey>, Error>)
        ensures
            yields(r, unwrap_outcome(*self, passphrase@, max_work_factor, target)),
    {
        let ceiling: u16 = match max_work_factor {
            Some(m) => m as u16,
            None => target as u16 + WORK_FACTOR_MARGIN as u16,
        };
        if self.log_n as u16 > ceiling {
            return Err(Error::ExcessiveWork { required: self.log_n, target });
        }
        let mut inner_salt: Vec<u8> = Vec::new();
        inner_salt.extend_from_slice(SCRYPT_SALT_LABEL.as_bytes());
        inner_salt.extend_from_slice(self.salt.as_slice());
        assert(inner_salt@ =~= derivation_salt(self.salt@));
        let enc_key = match derive_key(inner_salt.as_slice(), self.log_n, passphrase) {
            Some(k) => k,
            None => return Err(Error::ExcessiveWork { required: self.log_n, target }),
        };
        match aead_open(&enc_key, self.encrypted_file_key.as_slice()) {
            Some(pt) => Ok(Some(FileKey(copy_file_key(&pt)))),
            None => Err(Error::DecryptionFailed),
        }
    }

}

/// Writing a recipient stanza and reading it back gives its fields again:
/// the written stanza is one of this recipient's, and anything it reads as
/// has the same salt, work factor and wrapped key.
pub proof fn lemma_round_trip(r: RecipientStanza, st: Stanza)
    requires
        serializes_to(r, st),
    ensures
        stanza_matches(st),
        forall|x: RecipientStanza| parses_to(st, x) ==> same_fields(x, r),
{
    lemma_decimal_round_trip(r.log_n);
    assert(r.salt@.len() == SALT_LEN);
    assert(is_salt_arg(st.args@[0]@));
    assert forall|x: RecipientStanza| parses_to(st, x) implies same_fields(x, r) by {
        lemma_b64_encode_injective(x.salt@, r.salt@);
    }
}

/// Without a caller's ceiling, a stanza whose work factor is more than four
/// above the calibrated one is refused as excessive work, before any
/// derivation.
pub proof fn lemma_bound_enforced(s: RecipientStanza, passphrase: Seq<char>, target: u8)
    requires
        s.log_n > target as int + WORK_FACTOR_MARGIN as int,
    ensures
        unwrap_outcome(s, passphrase, None, target) == Err::<Seq<u8>, Error>(
            Error::ExcessiveWork { required: s.log_n, target },
        ),
{
}

/// Without a caller's ceiling, a stanza whose work factor is at most four
/// above the calibrated one goes on to derivation and decryption.
pub proof fn lemma_bound_accepted(s: RecipientStanza, passphrase: Seq<char>, target: u8)
    requires
        s.log_n <= target as int + WORK_FACTOR_MARGIN as int,
    ensures
        unwrap_outcome(s, passphrase, None, target) == derived_outcome(s, passphrase, target),
{
}

/// A passphrase whose derived key does not authenticate the wrapped key
/// gives a decryption failure, not excessive work, when the work factor is
/// within bounds and accepted by scrypt.
pub proof fn lemma_wrong_passphrase(
    s: RecipientStanza,
    passphrase: Seq<char>,
    max_work_factor: Option<u8>,
    target: u8,
)
    requires
        s.log_n <= work_factor_ceiling(max_work_factor, target),
        scrypt_accepts(s.log_n),
        chacha_open(
            scrypt_key(derivation_salt(s.salt@), s.log_n, passphrase),
            s.encrypted_file_key@,
        ) is None,
    ensures
        unwrap_outcome(s, passphrase, max_work_factor, target) == Err::<Seq<u8>, Error>(
            Error::DecryptionFailed,
        ),
{
}

} // verus!
