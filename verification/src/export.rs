//! Re-encryption of exported profiles with a passphrase (age's scrypt recipient), so that they
//! can be read on another machine without its local key, and the one retry that forgives
//! white space and invisible characters pasted around the passphrase.

use vstd::prelude::*;
use crate::text::{chars_of, is_white_space, is_white_space_spec, string_from_char_range};
use secrecy::SecretString;

verus! {

/// The largest scrypt work factor (`log2 N`) accepted when decrypting. age's documentation
/// warns that larger ones let a crafted file take hours and tens of GiB to try.
pub const MAX_WORK_FACTOR_LOG_N: u8 = 22;

#[derive(Debug)]
pub enum ExportError {
    EmptyPassphrase,
    EncryptionFailed,
    DecryptionFailed,
    ExcessiveWork { required: u8, allowed_max: u8 },
}

/// A decrypted import, and whether only the passphrase without its surrounding noise worked.
pub struct DecryptedImport {
    pub plaintext: Vec<u8>,
    pub passphrase_trimmed: bool,
}

/// Calls `age::encrypt` with an scrypt recipient for `passphrase`. The salt, the file key and the
/// work factor (calibrated to this machine) vary from call to call, so the ciphertext itself is
/// not named; what holds of every outcome is stated: decrypting it with the same passphrase,
/// accepting the work factor it was made with, gives the plaintext back. With one scrypt
/// recipient writing into memory the call does not fail.
#[verifier::external_body]
fn age_encrypt(plaintext: &[u8], passphrase: &str) -> (r: Option<Vec<u8>>)
    ensures
        r is Some,
        r matches Some(c) ==> decrypts_back(passphrase@, c@, plaintext@),
{
    age::encrypt(&age::scrypt::Recipient::new(SecretString::from(passphrase.to_owned())), plaintext).ok()
}

/// What age gives for `ciphertext` with `passphrase` when at most the work factor `max_log_n`
/// is accepted: the plaintext; `Err(Some(required))` when the file asks for the work factor
/// `required` that is refused; `Err(None)` for every other failure.
pub uninterp spec fn age_passphrase_decryption(passphrase: Seq<char>, ciphertext: Seq<u8>, max_log_n: u8) -> Result<Seq<u8>, Option<u8>>;

/// `ciphertext` decrypts to `plaintext` with `passphrase` under some accepted work factor.
pub open spec fn decrypts_back(passphrase: Seq<char>, ciphertext: Seq<u8>, plaintext: Seq<u8>) -> bool {
    exists|n: u8| #[trigger] age_passphrase_decryption(passphrase, ciphertext, n) matches Ok(p) && p == plaintext
}

/// Calls `age::decrypt` with an scrypt identity for `passphrase` whose maximum work factor is
/// `max_log_n`, and tells its errors apart: excessive work, or any other failure. Its result is
/// named (the identity's calibrated target work factor only fills a field that is dropped).
#[verifier::external_body]
fn decrypt_import_with_max_work_factor(ciphertext: &[u8], passphrase: &str, max_log_n: u8) -> (r:
    Result<Vec<u8>, ExportError>)
    ensures
        match age_passphrase_decryption(passphrase@, ciphertext@, max_log_n) {
            Ok(p) => r matches Ok(v) && v@ == p,
            Err(Some(required)) => r matches Err(ExportError::ExcessiveWork { required: q, allowed_max })
                && q == required && allowed_max == max_log_n,
            Err(None) => r matches Err(ExportError::DecryptionFailed),
        },
{
    let mut identity = age::scrypt::Identity::new(SecretString::from(passphrase.to_owned()));
    identity.set_max_work_factor(max_log_n);
    match age::decrypt(&identity, ciphertext) {
        Ok(plaintext) => Ok(plaintext),
        Err(age::DecryptError::ExcessiveWork { required, .. }) => Err(
            ExportError::ExcessiveWork { required, allowed_max: max_log_n },
        ),
        Err(_) => Err(ExportError::DecryptionFailed),
    }
}

/// Encrypts `plaintext` for export under `passphrase`; an empty passphrase is refused. What it
/// gives decrypts back to `plaintext` with `passphrase` once the work factor it was made with is
/// accepted.
pub fn encrypt_for_export(plaintext: &[u8], passphrase: &str) -> (r: Result<Vec<u8>, ExportError>)
    ensures
        passphrase@.len() > 0 ==> r is Ok,
        r matches Ok(c) ==> decrypts_back(passphrase@, c@, plaintext@),
        passphrase@.len() == 0 <==> r matches Err(ExportError::EmptyPassphrase),
        r is Err ==> r matches Err(ExportError::EmptyPassphrase) || r matches Err(
            ExportError::EncryptionFailed,
        ),
{
    if passphrase.is_empty() {
        return Err(ExportError::EmptyPassphrase);
    }
    match age_encrypt(plaintext, passphrase) {
        Some(c) => Ok(c),
        None => Err(ExportError::EncryptionFailed),
    }
}

/// Characters that pasting may put around a passphrase: Unicode white space, and the invisible
/// zero width space, joiners, word joiner and byte order mark, which `str::trim` keeps.
pub open spec fn is_paste_noise_spec(c: char) -> bool {
    is_white_space_spec(c) || c == '\u{200B}' || c == '\u{200C}' || c == '\u{200D}' || c
        == '\u{2060}' || c == '\u{FEFF}'
}

pub fn is_paste_noise(c: char) -> (r: bool)
    ensures
        r == is_paste_noise_spec(c),
{
    is_white_space(c) || c == '\u{200B}' || c == '\u{200C}' || c == '\u{200D}' || c == '\u{2060}'
        || c == '\u{FEFF}'
}

/// The number of noise characters at the start of `s`.
pub open spec fn leading_noise(s: Seq<char>) -> nat
    decreases s.len(),
{
    if s.len() > 0 && is_paste_noise_spec(s[0]) {
        1 + leading_noise(s.drop_first())
    } else {
        0
    }
}

/// The number of noise characters at the end of `s`.
pub open spec fn trailing_noise(s: Seq<char>) -> nat
    decreases s.len(),
{
    if s.len() > 0 && is_paste_noise_spec(s.last()) {
        1 + trailing_noise(s.drop_last())
    } else {
        0
    }
}

/// `s` without the noise at its ends; the white space inside it stays.
pub open spec fn without_paste_noise(s: Seq<char>) -> Seq<char> {
    let a = leading_noise(s);
    let rest = s.skip(a as int);
    rest.take(rest.len() - trailing_noise(rest))
}

/// The passphrase to retry with after the one typed failed: the typed one without its noise,
/// only when that removes something and leaves something.
pub open spec fn retry_candidate_spec(typed: Seq<char>) -> Option<Seq<char>> {
    let c = without_paste_noise(typed);
    if c.len() > 0 && c.len() != typed.len() {
        Some(c)
    } else {
        None
    }
}

proof fn lemma_leading_noise(s: Seq<char>, k: nat)
    requires
        k <= s.len(),
        forall|j: int| 0 <= j < k ==> is_paste_noise_spec(#[trigger] s[j]),
        k < s.len() ==> !is_paste_noise_spec(s[k as int]),
    ensures
        leading_noise(s) == k,
    decreases k,
{
    if k > 0 {
        assert forall|j: int| 0 <= j < k - 1 implies is_paste_noise_spec(#[trigger] s.drop_first()[j]) by {
            assert(s.drop_first()[j] == s[j + 1]);
        }
        if (k as int) < s.len() {
            assert(s.drop_first()[k - 1] == s[k as int]);
        }
        lemma_leading_noise(s.drop_first(), (k - 1) as nat);
    }
}

proof fn lemma_trailing_noise(s: Seq<char>, k: nat)
    requires
        k <= s.len(),
        forall|j: int| s.len() - k <= j < s.len() ==> is_paste_noise_spec(#[trigger] s[j]),
        k < s.len() ==> !is_paste_noise_spec(s[s.len() - k - 1]),
    ensures
        trailing_noise(s) == k,
    decreases k,
{
    if k > 0 {
        assert forall|j: int| s.drop_last().len() - (k - 1) <= j < s.drop_last().len() implies is_paste_noise_spec(#[trigger] s.drop_last()[j]) by {
            assert(s.drop_last()[j] == s[j]);
        }
        if (k as int) < s.len() {
            assert(s.drop_last()[s.drop_last().len() - (k - 1) - 1] == s[s.len() - k - 1]);
        }
        lemma_trailing_noise(s.drop_last(), (k - 1) as nat);
    }
}

/// The passphrase to retry with, if any (see `retry_candidate_spec`).
pub fn retry_candidate(typed: &str) -> (r: Option<String>)
    ensures
        r.deep_view() == retry_candidate_spec(typed@),
{
    let chars = chars_of(typed);
    let n = chars.len();
    let mut a: usize = 0;
    while a < n && is_paste_noise(chars[a])
        invariant
            n == chars@.len(),
            a <= n,
            forall|j: int| 0 <= j < a ==> is_paste_noise_spec(#[trigger] chars@[j]),
        decreases n - a,
    {
        a += 1;
    }
    proof {
        lemma_leading_noise(chars@, a as nat);
    }
    let mut b: usize = n;
    while b > a && is_paste_noise(chars[b - 1])
        invariant
            n == chars@.len(),
            a <= b <= n,
            forall|j: int| b <= j < n ==> is_paste_noise_spec(#[trigger] chars@[j]),
        decreases b,
    {
        b -= 1;
    }
    proof {
        let rest = chars@.skip(a as int);
        assert forall|j: int| rest.len() - (n - b) <= j < rest.len() implies is_paste_noise_spec(#[trigger] rest[j]) by {
            assert(rest[j] == chars@[a + j]);
        }
        if b > a {
            assert(rest[rest.len() - (n - b) - 1] == chars@[b - 1]);
        }
        lemma_trailing_noise(rest, (n - b) as nat);
        assert(rest.take(rest.len() - (n - b)) =~= chars@.subrange(a as int, b as int));
    }
    if b > a && b - a != n {
        Some(string_from_char_range(chars.as_slice(), a, b))
    } else {
        None
    }
}

/// The outcome of decrypting with the passphrase as typed and, when that fails as a wrong
/// passphrase would and a retry candidate exists, with the candidate; with whether the candidate
/// was what worked.
pub open spec fn fallback_outcome(
    passphrase: Seq<char>,
    ciphertext: Seq<u8>,
    max_log_n: u8,
) -> Result<(Seq<u8>, bool), Option<u8>> {
    let first = age_passphrase_decryption(passphrase, ciphertext, max_log_n);
    match (first, retry_candidate_spec(passphrase)) {
        (Err(None), Some(c)) => match age_passphrase_decryption(c, ciphertext, max_log_n) {
            Ok(p) => Ok((p, true)),
            Err(e) => Err(e),
        },
        (Ok(p), _) => Ok((p, false)),
        (Err(e), _) => Err(e),
    }
}

/// `r` reports `outcome`: the plaintext and the flag, an excessive work factor (with the limit
/// `max_log_n`), or a failed decryption.
pub open spec fn reports(r: Result<(Vec<u8>, bool), ExportError>, outcome: Result<(Seq<u8>, bool), Option<u8>>, max_log_n: u8) -> bool {
    match outcome {
        Ok((p, t)) => r matches Ok((v, b)) && v@ == p && b == t,
        Err(Some(required)) => r matches Err(ExportError::ExcessiveWork { required: q, allowed_max })
            && q == required && allowed_max == max_log_n,
        Err(None) => r matches Err(ExportError::DecryptionFailed),
    }
}

/// Decrypts with the passphrase as typed; only when that fails as a wrong passphrase would does
/// it retry once with the passphrase without the noise around it. An excessive work factor has
/// nothing to do with the passphrase and is not retried.
pub fn decrypt_with_whitespace_fallback_reporting(ciphertext: &[u8], passphrase: &str, max_log_n: u8) -> (r: Result<(Vec<u8>, bool), ExportError>)
    ensures
        reports(r, fallback_outcome(passphrase@, ciphertext@, max_log_n), max_log_n),
{
    let fallback = retry_candidate(passphrase);
    match decrypt_import_with_max_work_factor(ciphertext, passphrase, max_log_n) {
        Ok(plaintext) => Ok((plaintext, false)),
        Err(ExportError::DecryptionFailed) => match fallback {
            Some(candidate) => match decrypt_import_with_max_work_factor(ciphertext, candidate.as_str(), max_log_n) {
                Ok(plaintext) => Ok((plaintext, true)),
                Err(e) => Err(e),
            },
            None => Err(ExportError::DecryptionFailed),
        },
        Err(e) => Err(e),
    }
}

/// As `decrypt_with_whitespace_fallback_reporting`, without the report.
pub fn decrypt_with_whitespace_fallback(ciphertext: &[u8], passphrase: &str, max_log_n: u8) -> (r: Result<Vec<u8>, ExportError>)
    ensures
        match fallback_outcome(passphrase@, ciphertext@, max_log_n) {
            Ok((p, _)) => r matches Ok(v) && v@ == p,
            Err(Some(required)) => r matches Err(ExportError::ExcessiveWork { required: q, allowed_max })
                && q == required && allowed_max == max_log_n,
            Err(None) => r matches Err(ExportError::DecryptionFailed),
        },
{
    match decrypt_with_whitespace_fallback_reporting(ciphertext, passphrase, max_log_n) {
        Ok((plaintext, _)) => Ok(plaintext),
        Err(e) => Err(e),
    }
}

/// Decrypts an exported file with `passphrase` (see `fallback_outcome`).
pub fn decrypt_import(ciphertext: &[u8], passphrase: &str) -> (r: Result<Vec<u8>, ExportError>)
    ensures
        match fallback_outcome(passphrase@, ciphertext@, MAX_WORK_FACTOR_LOG_N) {
            Ok((p, _)) => r matches Ok(v) && v@ == p,
            Err(Some(required)) => r matches Err(ExportError::ExcessiveWork { required: q, allowed_max })
                && q == required && allowed_max == MAX_WORK_FACTOR_LOG_N,
            Err(None) => r matches Err(ExportError::DecryptionFailed),
        },
{
    decrypt_with_whitespace_fallback(ciphertext, passphrase, MAX_WORK_FACTOR_LOG_N)
}

/// As `decrypt_import`, reporting whether the passphrase without its noise was what worked.
pub fn decrypt_import_reporting_trim(ciphertext: &[u8], passphrase: &str) -> (r: Result<DecryptedImport, ExportError>)
    ensures
        match fallback_outcome(passphrase@, ciphertext@, MAX_WORK_FACTOR_LOG_N) {
            Ok((p, t)) => r matches Ok(d) && d.plaintext@ == p && d.passphrase_trimmed == t,
            Err(Some(required)) => r matches Err(ExportError::ExcessiveWork { required: q, allowed_max })
                && q == required && allowed_max == MAX_WORK_FACTOR_LOG_N,
            Err(None) => r matches Err(ExportError::DecryptionFailed),
        },
{
    match decrypt_with_whitespace_fallback_reporting(ciphertext, passphrase, MAX_WORK_FACTOR_LOG_N) {
        Ok((plaintext, passphrase_trimmed)) => Ok(DecryptedImport { plaintext, passphrase_trimmed }),
        Err(e) => Err(e),
    }
}

/// A passphrase that works as typed is used as typed: the retry never replaces a success.
pub proof fn law_typed_passphrase_first(passphrase: Seq<char>, ciphertext: Seq<u8>, max_log_n: u8)
    requires
        age_passphrase_decryption(passphrase, ciphertext, max_log_n) is Ok,
    ensures
        fallback_outcome(passphrase, ciphertext, max_log_n) == Ok::<(Seq<u8>, bool), Option<u8>>(
            (age_passphrase_decryption(passphrase, ciphertext, max_log_n)->Ok_0, false),
        ),
{
}

/// An export opens again: what `encrypt_for_export` gives decrypts, through the same path as an
/// import and with the same passphrase as typed, back to the plaintext once the work factor it
/// was made with is accepted.
pub proof fn law_export_decrypts_back(passphrase: Seq<char>, ciphertext: Seq<u8>, plaintext: Seq<u8>)
    requires
        decrypts_back(passphrase, ciphertext, plaintext),
    ensures
        exists|n: u8| #[trigger] fallback_outcome(passphrase, ciphertext, n) == Ok::<(Seq<u8>, bool), Option<u8>>((plaintext, false)),
{
    let n = choose|n: u8| #[trigger] age_passphrase_decryption(passphrase, ciphertext, n) matches Ok(p) && p == plaintext;
    law_typed_passphrase_first(passphrase, ciphertext, n);
    assert(fallback_outcome(passphrase, ciphertext, n) == Ok::<(Seq<u8>, bool), Option<u8>>((plaintext, false)));
}

/// The retry keeps the passphrase's inner characters: the candidate is a part of what was typed,
/// shorter than it and not empty.
pub proof fn law_retry_candidate_is_inner_part(typed: Seq<char>)
    requires
        retry_candidate_spec(typed) is Some,
    ensures
        ({
            let c = retry_candidate_spec(typed)->Some_0;
            let a = leading_noise(typed) as int;
            &&& 0 < c.len() < typed.len()
            &&& c == typed.subrange(a, a + c.len())
        }),
{
    let a = leading_noise(typed) as int;
    let rest = typed.skip(a);
    lemma_leading_noise_bound(typed);
    let c = rest.take(rest.len() - trailing_noise(rest));
    lemma_trailing_noise_bound(rest);
    assert(c =~= typed.subrange(a, a + c.len()));
}

proof fn lemma_leading_noise_bound(s: Seq<char>)
    ensures
        leading_noise(s) <= s.len(),
    decreases s.len(),
{
    if s.len() > 0 && is_paste_noise_spec(s[0]) {
        lemma_leading_noise_bound(s.drop_first());
    }
}

proof fn lemma_trailing_noise_bound(s: Seq<char>)
    ensures
        trailing_noise(s) <= s.len(),
    decreases s.len(),
{
    if s.len() > 0 && is_paste_noise_spec(s.last()) {
        lemma_trailing_noise_bound(s.drop_last());
    }
}

} // verus!
