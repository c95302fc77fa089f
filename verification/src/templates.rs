//! Page data handed to the rendering collaborator, and the post-input record
//! that the multipart parser assembles.

use vstd::prelude::*;
use crate::data::{Board, Credentials, Post};

verus! {

/// A placeholder for a future tree of thread children; nothing constructs or
/// reads one yet.
#[non_exhaustive]
pub enum Child {
    Unused,
}

/// Wraps any page data for rendering by the template collaborator.
pub struct HtmlTemplate<T>(pub T);

/// Data every page shares.
pub struct BaseTemplate {
    pub authenticated: bool,
    pub current_year: u32,
    pub boards: Vec<Board>,
    pub captcha: Option<String>,
    pub flash: Option<String>,
}

/// The login page.
pub struct LoginTemplate {
    pub base: BaseTemplate,
    pub credentials: Credentials,
}

/// The signup page.
pub struct SignupTemplate {
    pub base: BaseTemplate,
    pub credentials: Credentials,
}

/// The home page.
pub struct HomeTemplate {
    pub base: BaseTemplate,
}

/// A board index page.
pub struct BoardTemplate {
    pub base: BaseTemplate,
    pub board: String,
    pub posts: Vec<Post>,
    pub input: Input,
}

/// A thread page.
pub struct ThreadTemplate {
    pub base: BaseTemplate,
    pub board: String,
    pub post: Post,
    pub children: Option<Vec<Post>>,
    pub input: Input,
    pub invalid_captcha: bool,
}

/// The moderation page.
pub struct ModTemplate {
    pub base: BaseTemplate,
    pub credentials: Credentials,
}

/// The fallback page.
pub struct NotFoundTemplate {
    pub base: BaseTemplate,
}

/// The post-input record: one per in-flight submission, filled field by field
/// while the form is parsed, handed to persistence only after the challenge
/// check passes.
#[derive(Debug)]
pub struct Input {
    pub board: String,
    pub op: String,
    pub email: String,
    pub subject: String,
    pub body: String,
    pub parent: Option<i32>,
    pub captcha: String,
    pub files: Option<Vec<String>>,
}

/// The mathematical value of a post-input record.
#[verifier::ext_equal]
pub ghost struct InputView {
    pub board: Seq<char>,
    pub op: Seq<char>,
    pub email: Seq<char>,
    pub subject: Seq<char>,
    pub body: Seq<char>,
    pub parent: Option<int>,
    pub captcha: Seq<char>,
    pub files: Option<Seq<Seq<char>>>,
}

impl View for Input {
    type V = InputView;

    open spec fn view(&self) -> InputView {
        InputView {
            board: self.board@,
            op: self.op@,
            email: self.email@,
            subject: self.subject@,
            body: self.body@,
            parent: match self.parent {
                Some(p) => Some(p as int),
                None => None,
            },
            captcha: self.captcha@,
            files: match self.files {
                Some(fs) => Some(fs@.map_values(|s: String| s@)),
                None => None,
            },
        }
    }
}

/// The record every parse starts from: all texts empty, no parent, no files.
pub open spec fn empty_input() -> InputView {
    InputView {
        board: Seq::empty(),
        op: Seq::empty(),
        email: Seq::empty(),
        subject: Seq::empty(),
        body: Seq::empty(),
        parent: None,
        captcha: Seq::empty(),
        files: None,
    }
}

impl Default for Input {
    /// A fresh record, before any field has been assigned.
    fn default() -> (r: Self)
        ensures
            r@ == empty_input(),
    {
        let r = Input {
            board: String::new(),
            op: String::new(),
            email: String::new(),
            subject: String::new(),
            body: String::new(),
            parent: None,
            captcha: String::new(),
            files: None,
        };
        proof {
            assert(r@ =~= empty_input());
        }
        r
    }
}

} // verus!
