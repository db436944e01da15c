//! Argon2id password hashing and verification, and how a finished job is
//! handed to its callback. The jobs themselves run on worker threads, since a
//! single hash costs tens of milliseconds and about 19 MiB.
use vstd::prelude::*;

use argon2::password_hash::rand_core::OsRng;
use argon2::password_hash::{PasswordHash, PasswordHasher, PasswordVerifier, SaltString};
use argon2::Argon2;

use crate::query::{CallbackInfo, CallbackParam};
use crate::text::{
    char_len_utf8, chars_of, lemma_utf8_len_concat, lemma_utf8_len_empty, lemma_utf8_len_push, utf8_len,
};

verus! {

broadcast use vstd::string::group_string_axioms;

/// What a finished job produced.
pub enum PasswordOutcome {
    /// A PHC string (`$argon2id$v=19$m=...`), to be stored as it is.
    Hash(String),
    /// Whether the password matched the stored hash.
    Verify(bool),
    /// The job failed; the text is for the log, never for the script.
    Failed(String),
}

/// A finished job and the callback waiting for it.
pub struct PasswordResult {
    pub outcome: PasswordOutcome,
    pub callback: CallbackInfo,
}

/// Longest password accepted, in bytes of UTF-8: Argon2 has no limit of its
/// own, but its cost grows with the input and the input is remote.
pub const MAX_PASSWORD_LEN: usize = 1024;

/// Whether `stored` parses as a PHC string (`PasswordHash::new`).
pub uninterp spec fn phc_parses(stored: Seq<char>) -> bool;

/// Whether Argon2, with the parameters read back from the PHC string
/// `stored`, accepts `password` (`Argon2::verify_password`).
pub uninterp spec fn argon2_accepts(password: Seq<char>, stored: Seq<char>) -> bool;

/// The start of every hash `Argon2::default()` writes: the algorithm, version
/// 19 and the default parameters (19 MiB of memory, 2 passes, 1 lane).
pub open spec fn phc_prefix() -> Seq<char> {
    "$argon2id$v=19$m=19456,t=2,p=1$"@
}

/// What a successful hash looks like: `phc_prefix()`, the 16-byte salt in
/// unpadded B64 (22 characters), `$`, and the 32-byte output in unpadded B64
/// (43 characters).
pub open spec fn is_default_phc(h: Seq<char>) -> bool {
    &&& h.len() == 97
    &&& h.take(31) == phc_prefix()
    &&& h[53] == '$'
}

/// Hashes `password` with `Argon2::default()` (Argon2id, version 19, default
/// parameters) and a salt drawn from the operating system
/// (`SaltString::generate(&mut OsRng)`, then `hash_password`, written out by
/// `PasswordHash`'s `Display`). As the crate's source shows, `hash_password`
/// fails only for a password of more than `MAX_PWD_LEN` (`0xFFFFFFFF`) bytes:
/// the generated salt and the default parameters are always accepted. The
/// string it writes parses back (`PasswordHash::new`), and verifying the same
/// password against it succeeds: `verify_password` recomputes the hash with
/// the algorithm, version, parameters and salt read back from the string. The
/// salt is random, so the salt and output characters are not a function of
/// the password and are left unsaid; a failing random source panics inside
/// `SaltString::generate`.
#[verifier::external_body]
fn argon2_hash(password: &str) -> (r: PasswordOutcome)
    ensures
        r is Hash || r is Failed,
        r is Hash <==> utf8_len(password@) <= 0xFFFF_FFFF,
        r matches PasswordOutcome::Hash(h) ==> is_default_phc(h@),
        r matches PasswordOutcome::Hash(h) ==> phc_parses(h@) && argon2_accepts(password@, h@),
{
    let salt = SaltString::generate(&mut OsRng);
    match Argon2::default().hash_password(password.as_bytes(), &salt) {
        Ok(hash) => PasswordOutcome::Hash(hash.to_string()),
        Err(e) => PasswordOutcome::Failed(format!("Argon2id hashing failed: {e}")),
    }
}

/// Parses `stored` with `PasswordHash::new` and, when that succeeds, checks
/// `password` against it with `Argon2::default().verify_password`. A string
/// that does not parse gives `Failed`; the verdict and the parse are named,
/// not described.
#[verifier::external_body]
fn argon2_verify(password: &str, stored: &str) -> (r: PasswordOutcome)
    ensures
        r is Verify <==> phc_parses(stored@),
        r is Failed <==> !phc_parses(stored@),
        r matches PasswordOutcome::Verify(b) ==> b == argon2_accepts(password@, stored@),
{
    match PasswordHash::new(stored) {
        Ok(parsed) => PasswordOutcome::Verify(
            Argon2::default().verify_password(password.as_bytes(), &parsed).is_ok(),
        ),
        Err(e) => PasswordOutcome::Failed(format!("Stored hash is not a valid PHC string: {e}")),
    }
}

/// The work of a `mysql_hash_password` job.
pub fn hash_job(password: String) -> (r: PasswordOutcome)
    ensures
        r is Hash || r is Failed,
        r is Hash <==> utf8_len(password@) <= 0xFFFF_FFFF,
        r matches PasswordOutcome::Hash(h) ==> is_default_phc(h@),
        r matches PasswordOutcome::Hash(h) ==> phc_parses(h@) && argon2_accepts(password@, h@),
{
    argon2_hash(password.as_str())
}

/// The work of a `mysql_verify_password` job.
pub fn verify_job(password: String, stored: String) -> (r: PasswordOutcome)
    ensures
        r is Verify <==> phc_parses(stored@),
        r is Failed <==> !phc_parses(stored@),
        r matches PasswordOutcome::Verify(b) ==> b == argon2_accepts(password@, stored@),
{
    argon2_verify(password.as_str(), stored.as_str())
}

/// Whether a password is short enough to hand to Argon2.
pub fn password_len_ok(password: &str) -> (ok: bool)
    ensures
        ok == (utf8_len(password@) <= MAX_PASSWORD_LEN),
{
    let v = chars_of(password);
    let mut used: usize = 0;
    let mut i: usize = 0;
    proof {
        assert(v@.take(0) =~= Seq::<char>::empty());
        lemma_utf8_len_empty();
    }
    while i < v.len()
        invariant
            v@ == password@,
            i <= v@.len(),
            used == utf8_len(v@.take(i as int)),
            used <= MAX_PASSWORD_LEN,
        decreases v@.len() - i,
    {
        let w = char_len_utf8(v[i]);
        proof {
            lemma_utf8_len_push(v@.take(i as int), v@[i as int]);
            assert(v@.take(i + 1) =~= v@.take(i as int).push(v@[i as int]));
        }
        if w > MAX_PASSWORD_LEN - used {
            proof {
                lemma_utf8_len_concat(v@.take(i + 1), v@.skip(i + 1));
                assert(v@.take(i + 1) + v@.skip(i + 1) =~= v@);
            }
            return false;
        }
        used = used + w;
        i = i + 1;
    }
    proof {
        assert(v@.take(i as int) =~= v@);
    }
    true
}

/// `p` is what a job that ended in `outcome` puts in front of the arguments
/// of a callback with format `format`: the hash, the verdict as 1 or 0, or,
/// for a failure, an empty string when the format starts with `s` and 0
/// otherwise.
pub open spec fn is_first_param(outcome: PasswordOutcome, format: Seq<char>, p: CallbackParam) -> bool {
    match outcome {
        PasswordOutcome::Hash(h) => p matches CallbackParam::String(s) && s@ == h@,
        PasswordOutcome::Verify(b) => p == CallbackParam::Int(
            if b {
                1i32
            } else {
                0i32
            },
        ),
        PasswordOutcome::Failed(_) => if format.len() > 0 && format[0] == 's' {
            p matches CallbackParam::String(s) && s@.len() == 0
        } else {
            p == CallbackParam::Int(0)
        },
    }
}

/// The argument a finished job puts in front of its callback's own: the hash,
/// or the verdict as 1 or 0. A failed job still calls back, with what a
/// failure looks like (an empty hash when the callback's format starts with
/// `s`, 0 otherwise), so that a script waiting on it is not left hanging.
pub fn first_param(outcome: PasswordOutcome, format: &str) -> (p: CallbackParam)
    ensures
        is_first_param(outcome, format@, p),
{
    match outcome {
        PasswordOutcome::Hash(h) => CallbackParam::String(h),
        PasswordOutcome::Verify(b) => CallbackParam::Int(
            if b {
                1
            } else {
                0
            },
        ),
        PasswordOutcome::Failed(_) => {
            let f = chars_of(format);
            if f.len() > 0 && f[0] == 's' {
                CallbackParam::String(String::new())
            } else {
                CallbackParam::Int(0)
            }
        },
    }
}

impl PasswordResult {
    /// The callback to run, with the job's result as its first argument.
    pub fn into_callback(self) -> (info: CallbackInfo)
        ensures
            info.name == self.callback.name,
            info.format == self.callback.format,
            info.params@.len() == self.callback.params@.len() + 1,
            is_first_param(self.outcome, self.callback.format@, info.params@[0]),
            info.params@.skip(1) == self.callback.params@,
    {
        let mut info = self.callback;
        let p = first_param(self.outcome, info.format.as_str());
        info.params.insert(0, p);
        proof {
            assert(info.params@.skip(1) =~= self.callback.params@);
        }
        info
    }
}

} // verus!
