use vstd::prelude::*;
use pbkdf2::password_hash::PasswordHasher;

verus! {

use vstd::string::StringExecFns;
use vstd::utf8::encode_utf8;

// Ids are i32 rather than u32 because the persistence collaborator requires
// signed columns, although the values are never negative.

/// A stored post. `created` holds seconds since the Unix epoch; the
/// persistence collaborator converts to and from its own timestamp type.
#[derive(Clone, Debug)]
pub struct Post {
    pub id: i32,
    pub parent: Option<i32>,
    pub board: String,
    pub created: i64,
    pub op: String,
    pub email: Option<String>,
    pub subject: Option<String>,
    pub body: Option<String>,
    pub files: Option<Vec<String>>,
}

impl Default for Post {
    /// A blank post on the default board. The caller stamps `created`; a
    /// fresh value carries the epoch itself.
    fn default() -> (r: Self)
        ensures
            r.id == 0,
            r.parent is None,
            r.board@ == "/b/"@,
            r.created == 0,
            r.op@ == "Me"@,
            r.email is None,
            r.subject is None,
            r.body is None,
            r.files is None,
    {
        Post {
            id: 0,
            parent: None,
            board: String::from_str("/b/"),
            created: 0,
            op: String::from_str("Me"),
            email: None,
            subject: None,
            body: None,
            files: None,
        }
    }
}

/// Moderation roles an account can hold.
#[derive(Clone, Debug)]
pub enum Role {
    Admin,
    Moderator,
    Volunteer,
    User,
}

/// Login credentials for the hidden moderation area.
#[derive(Clone, Debug)]
pub struct Credentials {
    pub username: String,
    pub password: String,
    pub salt: String,
    pub role: Option<Role>,
}

/// The PHC-format string that PBKDF2 with its default parameters derives from
/// a password and a salt, or nothing when the salt is not a valid PHC salt.
/// The derivation is a function of the two arguments alone.
pub uninterp spec fn pbkdf2_phc(password: Seq<u8>, salt: Seq<char>) -> Option<Seq<char>>;

/// Relies on pbkdf2's Pbkdf2::hash_password with default parameters, and on
/// password_hash's Salt::from_b64 to validate the salt: the PHC string
/// depends on the password and salt alone.
#[verifier::external_body]
fn pbkdf2_hash(password: &[u8], salt: &str) -> (r: Option<String>)
    ensures
        r is Some <==> pbkdf2_phc(password@, salt@) is Some,
        r is Some ==> r->Some_0@ == pbkdf2_phc(password@, salt@)->Some_0,
{
    match pbkdf2::password_hash::Salt::from_b64(salt) {
        Ok(s) => pbkdf2::Pbkdf2.hash_password(password, s).ok().map(|h| h.to_string()),
        Err(_) => None,
    }
}

impl Credentials {
    /// The PHC hash of this credential's password under its salt; nothing
    /// when the salt is rejected.
    pub fn hash(&self) -> (r: Option<String>)
        ensures
            r is Some <==> pbkdf2_phc(encode_utf8(self.password@), self.salt@) is Some,
            r is Some ==> r->Some_0@ == pbkdf2_phc(
                encode_utf8(self.password@),
                self.salt@,
            )->Some_0,
    {
        pbkdf2_hash(self.password.as_str().as_bytes(), self.salt.as_str())
    }

    /// Placeholder check: no credential ever authenticates by itself; a
    /// caller must go through the persistence collaborator instead.
    pub fn authenticate(&self) -> (r: bool)
        ensures
            r == false,
    {
        false
    }
}

/// A board: its short name and its display title.
#[derive(Clone, Debug)]
pub struct Board {
    pub name: String,
    pub title: String,
}

/// A stored account. `created` holds seconds since the Unix epoch.
#[derive(Debug)]
pub struct User {
    pub id: i32,
    pub name: String,
    pub role: i8,
    pub password: String,
    pub created: i64,
}

/// Marks a request whose challenge check already passed.
pub struct ValidCaptcha(pub bool);

} // verus!
