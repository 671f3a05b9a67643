//! Registration and login: a credential store keyed by unique email, with
//! password hashing and verification delegated to Argon2.

use vstd::prelude::*;
use vstd::string::StringExecFns;
use argon2::{Argon2, PasswordHash, PasswordHasher, PasswordVerifier};

verus! {

/// Request body shared by registration and login.
#[derive(Debug)]
pub struct AuthPayload {
    pub email: String,
    pub password: String,
}

/// Successful login reply. Token issuance is a placeholder constant in
/// this system; a deployment must replace it with a real signed credential.
#[derive(Debug)]
pub struct AuthResponse {
    pub token: String,
}

/// Why registration or login was refused.
#[derive(PartialEq, Eq, Structural, Clone, Copy, Debug)]
pub enum AuthError {
    /// Registration found the email already taken.
    EmailTaken,
    /// The password could not be hashed.
    HashingFailed,
    /// Login found no such user, a bad password, or an unreadable stored
    /// hash.
    InvalidCredentials,
}

/// Whether Argon2 verification of `password` against the password-hash
/// string `hash` succeeds; the hash string carries its own salt and
/// parameters, so this depends on the two arguments alone.
pub uninterp spec fn password_matches(password: Seq<char>, hash: Seq<char>) -> bool;

/// Whether `hash` is a well-formed PHC password-hash string.
pub uninterp spec fn phc_parses(hash: Seq<char>) -> bool;

/// Credential hashing and verification, delegated to Argon2.
pub struct AuthService;

impl AuthService {
    /// Relies on `argon2`'s `PasswordHasher::hash_password` with default
    /// parameters and a fresh random salt: a produced hash renders as a
    /// PHC string that parses back and that `verify_password` accepts for
    /// the same password. The salt is drawn anew each call, so nothing
    /// relates the hashes of two calls.
    #[verifier::external_body]
    pub fn hash_password(password: &str) -> (r: Result<String, AuthError>)
        ensures
            r is Ok ==> phc_parses(r->Ok_0@) && password_matches(password@, r->Ok_0@),
            r is Err ==> r->Err_0 == AuthError::HashingFailed,
    {
        match Argon2::default().hash_password(password.as_bytes()) {
            Ok(h) => Ok(h.to_string()),
            Err(_) => Err(AuthError::HashingFailed),
        }
    }

    /// Relies on `phc::PasswordHash::new`, which accepts exactly the
    /// well-formed PHC strings, and on Argon2's
    /// `PasswordVerifier::verify_password`, which recomputes the hash from
    /// the password and the salt and parameters carried in the parsed
    /// string — both deterministic in their arguments alone.
    #[verifier::external_body]
    pub fn verify_password(password: &str, password_hash: &str) -> (r: Result<bool, AuthError>)
        ensures
            r is Ok <==> phc_parses(password_hash@),
            r is Ok ==> r->Ok_0 == password_matches(password@, password_hash@),
            r is Err ==> r->Err_0 == AuthError::InvalidCredentials,
    {
        match PasswordHash::new(password_hash) {
            Ok(parsed) => Ok(Argon2::default().verify_password(password.as_bytes(), &parsed).is_ok()),
            Err(_) => Err(AuthError::InvalidCredentials),
        }
    }
}

/// A stored credential: a unique email and the hash of its password.
pub struct Credential {
    pub email: String,
    pub password_hash: String,
}

/// The table an email-keyed credential sequence stands for.
pub open spec fn cred_map(s: Seq<Credential>) -> Map<Seq<char>, Seq<char>>
    decreases s.len(),
{
    if s.len() == 0 {
        Map::empty()
    } else {
        cred_map(s.drop_last()).insert(s.last().email@, s.last().password_hash@)
    }
}

/// No two credentials of the sequence share an email.
pub open spec fn unique_emails(s: Seq<Credential>) -> bool {
    forall|i: int, j: int| 0 <= i < j < s.len() ==> s[i].email@ != s[j].email@
}

/// An email is in the table exactly when some credential carries it.
proof fn lemma_cred_map_dom(s: Seq<Credential>)
    ensures
        forall|e: Seq<char>|
            cred_map(s).dom().contains(e) <==> exists|i: int|
                0 <= i < s.len() && #[trigger] s[i].email@ == e,
    decreases s.len(),
{
    if s.len() > 0 {
        lemma_cred_map_dom(s.drop_last());
        assert forall|e: Seq<char>| cred_map(s).dom().contains(e) implies exists|i: int|
            0 <= i < s.len() && #[trigger] s[i].email@ == e by {
            if s.last().email@ == e {
                assert(s[s.len() - 1].email@ == e);
            } else {
                assert(cred_map(s.drop_last()).dom().contains(e));
                let i = choose|i: int|
                    0 <= i < s.drop_last().len() && #[trigger] s.drop_last()[i].email@ == e;
                assert(s[i] == s.drop_last()[i]);
                assert(s[i].email@ == e);
            }
        }
        assert forall|e: Seq<char>|
            exists|i: int| 0 <= i < s.len() && #[trigger] s[i].email@ == e implies cred_map(
            s,
        ).dom().contains(e) by {
            let i = choose|i: int| 0 <= i < s.len() && #[trigger] s[i].email@ == e;
            if i < s.len() - 1 {
                assert(s.drop_last()[i].email@ == e);
                assert(exists|p: int|
                    0 <= p < s.drop_last().len() && #[trigger] s.drop_last()[p].email@ == e);
                assert(cred_map(s.drop_last()).dom().contains(e));
            } else {
                assert(s.last().email@ == e);
            }
        }
    }
}

/// With unique emails, each credential is the table's entry for its email.
proof fn lemma_cred_map_index(s: Seq<Credential>)
    requires
        unique_emails(s),
    ensures
        forall|i: int|
            0 <= i < s.len() ==> cred_map(s).dom().contains(#[trigger] s[i].email@) && cred_map(
                s,
            )[s[i].email@] == s[i].password_hash@,
    decreases s.len(),
{
    if s.len() > 0 {
        assert(unique_emails(s.drop_last()));
        lemma_cred_map_index(s.drop_last());
        assert forall|i: int|
            0 <= i < s.len() implies cred_map(s).dom().contains(#[trigger] s[i].email@)
            && cred_map(s)[s[i].email@] == s[i].password_hash@ by {
            if i < s.len() - 1 {
                assert(s.drop_last()[i] == s[i]);
                assert(s[i].email@ != s.last().email@);
            }
        }
    }
}

/// The table of registered credentials. Its view maps each registered
/// email to the stored password hash.
pub struct CredentialStore {
    creds: Vec<Credential>,
}

impl View for CredentialStore {
    type V = Map<Seq<char>, Seq<char>>;

    closed spec fn view(&self) -> Map<Seq<char>, Seq<char>> {
        cred_map(self.creds@)
    }
}

impl CredentialStore {
    /// Well-formedness: registered emails are unique. Constructors
    /// establish it and methods preserve it.
    pub closed spec fn wf(&self) -> bool {
        unique_emails(self.creds@)
    }

    /// An empty credential table.
    pub fn new() -> (s: CredentialStore)
        ensures
            s.wf(),
            s@ == Map::<Seq<char>, Seq<char>>::empty(),
    {
        CredentialStore { creds: Vec::new() }
    }

    /// Position of the credential carrying `email`, if one is stored.
    fn find_index(&self, email: &String) -> (r: Option<usize>)
        requires
            self.wf(),
        ensures
            match r {
                Some(j) => j < self.creds@.len() && self.creds@[j as int].email@ == email@,
                None => !self@.dom().contains(email@),
            },
    {
        let mut i: usize = 0;
        while i < self.creds.len()
            invariant
                0 <= i <= self.creds@.len(),
                forall|j: int| 0 <= j < i ==> #[trigger] self.creds@[j].email@ != email@,
            decreases self.creds@.len() - i,
        {
            if self.creds[i].email == *email {
                return Some(i);
            }
            i += 1;
        }
        proof {
            lemma_cred_map_dom(self.creds@);
        }
        None
    }

    /// Registers a fresh credential. A taken email is refused; a hashing
    /// failure is reported and stores nothing; otherwise the email is
    /// bound to a hash that verifies the given password.
    pub fn register(&mut self, payload: &AuthPayload) -> (r: Result<(), AuthError>)
        requires
            old(self).wf(),
        ensures
            final(self).wf(),
            (r is Err && r->Err_0 == AuthError::EmailTaken) <==> old(self)@.dom().contains(
                payload.email@,
            ),
            r is Err ==> final(self)@ == old(self)@ && (r->Err_0 == AuthError::EmailTaken
                || r->Err_0 == AuthError::HashingFailed),
            r is Ok ==> {
                &&& !old(self)@.dom().contains(payload.email@)
                &&& final(self)@.dom().contains(payload.email@)
                &&& final(self)@ == old(self)@.insert(
                    payload.email@,
                    final(self)@[payload.email@],
                )
                &&& phc_parses(final(self)@[payload.email@])
                &&& password_matches(payload.password@, final(self)@[payload.email@])
            },
    {
        match self.find_index(&payload.email) {
            Some(_) => {
                proof {
                    lemma_cred_map_index(self.creds@);
                }
                Err(AuthError::EmailTaken)
            },
            None => {
                match AuthService::hash_password(payload.password.as_str()) {
                    Err(e) => Err(e),
                    Ok(h) => {
                        let ghost pre = self.creds@;
                        proof {
                            lemma_cred_map_dom(pre);
                        }
                        self.creds.push(Credential {
                            email: payload.email.clone(),
                            password_hash: h,
                        });
                        proof {
                            assert(self.creds@.drop_last() =~= pre);
                            assert(forall|j: int|
                                0 <= j < pre.len() ==> #[trigger] pre[j].email@ != payload.email@);
                            assert(unique_emails(self.creds@));
                            lemma_cred_map_index(self.creds@);
                            assert(self.creds@[pre.len() as int].email@ == payload.email@);
                        }
                        Ok(())
                    },
                }
            },
        }
    }

    /// Logs a user in: succeeds exactly when the email is registered and
    /// the password verifies against the stored, readable hash, and then
    /// issues the (placeholder) token; everything else is refused as
    /// invalid credentials.
    pub fn login(&self, payload: &AuthPayload) -> (r: Result<AuthResponse, AuthError>)
        requires
            self.wf(),
        ensures
            r is Ok <==> {
                &&& self@.dom().contains(payload.email@)
                &&& phc_parses(self@[payload.email@])
                &&& password_matches(payload.password@, self@[payload.email@])
            },
            r is Ok ==> r->Ok_0.token@ == "fake-jwt-token-for-now"@ && r->Ok_0.token@.len() > 0,
            r is Err ==> r->Err_0 == AuthError::InvalidCredentials,
    {
        proof {
            lemma_cred_map_index(self.creds@);
        }
        match self.find_index(&payload.email) {
            None => Err(AuthError::InvalidCredentials),
            Some(j) => {
                match AuthService::verify_password(
                    payload.password.as_str(),
                    self.creds[j].password_hash.as_str(),
                ) {
                    Err(_) => Err(AuthError::InvalidCredentials),
                    Ok(false) => Err(AuthError::InvalidCredentials),
                    Ok(true) => {
                        proof {
                            reveal_strlit("fake-jwt-token-for-now");
                        }
                        Ok(AuthResponse { token: String::from_str("fake-jwt-token-for-now") })
                    },
                }
            },
        }
    }
}

} // verus!
