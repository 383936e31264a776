use vstd::prelude::*;

use crate::text::starts_with_spec;

verus! {

/// Whether `credential` is the password that the PHC string `hash`
/// (algorithm, parameters, salt and digest) was made from.
pub uninterp spec fn password_matches(credential: Seq<char>, hash: Seq<char>) -> bool;

/// Relies on argon2's `PasswordHash::new`, which parses the PHC string, and
/// `Argon2::verify_password`, which hashes the credential again under the
/// salt and parameters recorded there and compares the digests. A string
/// that does not parse matches no credential.
#[verifier::external_body]
fn verify_password(credential: &str, hash: &str) -> (r: bool)
    ensures
        r == password_matches(credential@, hash@),
{
    match argon2::PasswordHash::new(hash) {
        Ok(parsed) => argon2::PasswordVerifier::verify_password(
            &argon2::Argon2::default(),
            credential.as_bytes(),
            &parsed,
        ).is_ok(),
        Err(_) => false,
    }
}

/// Relies on password-hash's `SaltString::generate`, which draws a salt
/// of the recommended 16 bytes from rand_core's `OsRng`, and argon2's
/// `Argon2::hash_password` with `Argon2::default()` (Argon2id, version 19,
/// default parameters): the PHC string of the hash, which begins with
/// `$argon2id$v=19$` and which `verify_password` accepts for the same
/// password. Hashing fails only on passwords over `u32::MAX` bytes, which
/// the bound on characters rules out; the salt always has the length
/// argon2 asks for.
#[verifier::external_body]
fn hash_with_fresh_salt(password: &str) -> (r: String)
    requires
        password@.len() < 0x4000_0000,
    ensures
        password_matches(password@, r@),
        starts_with_spec(r@, "$argon2id$v=19$"@),
{
    let salt = argon2::password_hash::SaltString::generate(&mut rand_core::OsRng);
    argon2::PasswordHasher::hash_password(&argon2::Argon2::default(), password.as_bytes(), &salt)
        .unwrap()
        .to_string()
}

/// The two streaming endpoints, and everything else.
#[derive(Clone, Copy, Debug, PartialEq, Eq, Structural)]
pub enum Channel {
    Read,
    Edit,
    Other,
}

pub open spec fn channel_spec(path: Seq<char>) -> Channel {
    if path == "/read"@ {
        Channel::Read
    } else if path == "/edit"@ {
        Channel::Edit
    } else {
        Channel::Other
    }
}

pub fn str_equal(a: &str, b: &str) -> (r: bool)
    ensures
        r == (a@ == b@),
{
    let n = a.unicode_len();
    if n != b.unicode_len() {
        return false;
    }
    let mut i: usize = 0;
    while i < n
        invariant
            n == a@.len(),
            n == b@.len(),
            i <= n,
            a@.take(i as int) == b@.take(i as int),
        decreases n - i,
    {
        if a.get_char(i) != b.get_char(i) {
            return false;
        }
        assert(a@.take(i + 1) =~= a@.take(i as int).push(a@[i as int]));
        assert(b@.take(i + 1) =~= b@.take(i as int).push(b@[i as int]));
        i = i + 1;
    }
    assert(a@ =~= a@.take(n as int));
    assert(b@ =~= b@.take(n as int));
    true
}

/// The channel that a request path names.
pub fn channel_of(path: &str) -> (r: Channel)
    ensures
        r == channel_spec(path@),
{
    if str_equal(path, "/read") {
        Channel::Read
    } else if str_equal(path, "/edit") {
        Channel::Edit
    } else {
        Channel::Other
    }
}

/// What a gate with stored hash `hash` decides on `credential`: an unset
/// gate admits anyone; a set one only a credential that matches.
pub open spec fn gate_admits(hash: Option<Seq<char>>, credential: Option<Seq<char>>) -> bool {
    match hash {
        None => true,
        Some(h) => match credential {
            Some(c) => password_matches(c, h),
            None => false,
        },
    }
}

pub open spec fn opt_view(s: Option<String>) -> Option<Seq<char>> {
    match s {
        Some(x) => Some(x@),
        None => None,
    }
}

pub open spec fn opt_str_view(s: Option<&str>) -> Option<Seq<char>> {
    match s {
        Some(x) => Some(x@),
        None => None,
    }
}

/// The two credentials of a session, each kept only as its hash.
pub struct AccessGates {
    pub read_access_hash: Option<String>,
    pub write_access_hash: Option<String>,
}

pub open spec fn admits_spec(g: AccessGates, channel: Channel, credential: Option<Seq<char>>) -> bool {
    match channel {
        Channel::Read => gate_admits(opt_view(g.read_access_hash), credential),
        Channel::Edit => gate_admits(opt_view(g.write_access_hash), credential),
        Channel::Other => true,
    }
}

pub open spec fn hash_of_ok(pass: Option<String>, hash: Option<String>) -> bool {
    match pass {
        None => hash is None,
        Some(p) => hash matches Some(h) && password_matches(p@, h@) && starts_with_spec(
            h@,
            "$argon2id$v=19$"@,
        ),
    }
}

pub open spec fn pass_fits(pass: Option<String>) -> bool {
    match pass {
        None => true,
        Some(p) => p@.len() < 0x4000_0000,
    }
}

impl AccessGates {
    /// Hashes each password that is given, under a fresh salt; a channel
    /// without one stays open.
    pub fn new(read_access_pass: Option<String>, write_access_pass: Option<String>) -> (r:
        AccessGates)
        requires
            pass_fits(read_access_pass),
            pass_fits(write_access_pass),
        ensures
            hash_of_ok(read_access_pass, r.read_access_hash),
            hash_of_ok(write_access_pass, r.write_access_hash),
    {
        let read_access_hash = match &read_access_pass {
            Some(p) => Some(hash_with_fresh_salt(p.as_str())),
            None => None,
        };
        let write_access_hash = match &write_access_pass {
            Some(p) => Some(hash_with_fresh_salt(p.as_str())),
            None => None,
        };
        AccessGates { read_access_hash, write_access_hash }
    }

    /// Whether a request for `path` that presents `credential` may go on.
    /// Only the two streaming endpoints are gated.
    pub fn admits(&self, path: &str, credential: Option<&str>) -> (r: bool)
        ensures
            r == admits_spec(*self, channel_spec(path@), opt_str_view(credential)),
    {
        let hash = match channel_of(path) {
            Channel::Read => &self.read_access_hash,
            Channel::Edit => &self.write_access_hash,
            Channel::Other => {
                return true;
            },
        };
        match hash {
            None => true,
            Some(h) => match credential {
                Some(c) => verify_password(c, h.as_str()),
                None => false,
            },
        }
    }
}

/// With a write credential set, a request on `/edit` goes on exactly when
/// it presents a matching credential, so a wrong or missing one is turned
/// away; with none set, every request goes on.
pub proof fn lemma_edit_gate(g: AccessGates, credential: Option<Seq<char>>)
    ensures
        g.write_access_hash is None ==> admits_spec(g, channel_spec("/edit"@), credential),
        g.write_access_hash matches Some(h) ==> (admits_spec(g, channel_spec("/edit"@), credential)
            <==> (credential matches Some(c) && password_matches(c, h@))),
{
    reveal_strlit("/edit");
    reveal_strlit("/read");
    assert("/edit"@ != "/read"@) by {
        assert("/edit"@[1] != "/read"@[1]);
    }
}

} // verus!
