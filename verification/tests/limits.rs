use tokichan::config::Security;
use tokichan::data::Post;
use tokichan::error::RequestError;
use tokichan::form::{Field, Validator};
use tokichan::templates::Input;

fn security(limit: &str) -> Security {
    Security { upload_limit: limit.to_owned(), allowed_mimes: vec![] }
}

#[test]
fn plain_byte_counts() {
    assert_eq!(security("123").validate_upload_limit(), Some(123));
    assert_eq!(security("123B").validate_upload_limit(), Some(123));
}

#[test]
fn binary_prefixes() {
    assert_eq!(security("1K").validate_upload_limit(), Some(1024));
    assert_eq!(security("10M").validate_upload_limit(), Some(10 * 1024 * 1024));
    assert_eq!(security("10 MiB").validate_upload_limit(), Some(10 * 1024 * 1024));
    assert_eq!(security("5GB").validate_upload_limit(), Some(5 * 1024 * 1024 * 1024));
}

#[test]
fn any_whitespace_between_number_and_unit() {
    assert_eq!(security("10\tKB").validate_upload_limit(), Some(10240));
    assert_eq!(security("10 \t K").validate_upload_limit(), Some(10240));
}

#[test]
fn rejected_limits() {
    assert_eq!(security("").validate_upload_limit(), None);
    assert_eq!(security("M").validate_upload_limit(), None);
    assert_eq!(security("10X").validate_upload_limit(), None);
    assert_eq!(security(" 10").validate_upload_limit(), None);
    assert_eq!(security("10MiBB").validate_upload_limit(), None);
}

#[test]
fn validator_tracks_failures() {
    let mut v = Validator::new();
    assert!(v.valid());
    v.check(true, Field::Op, "too long".to_owned());
    assert!(v.valid());
    v.check(false, Field::Body, "empty".to_owned());
    assert!(!v.valid());
}

#[test]
fn request_error_messages() {
    assert_eq!(RequestError::IncorrectCaptcha.message(), "incorrect captcha");
    assert_eq!(RequestError::MissingKey.message(), "no key for one or more fields");
}

#[test]
fn fresh_input_is_blank() {
    let input = Input::default();
    assert_eq!(input.board, "");
    assert_eq!(input.captcha, "");
    assert_eq!(input.parent, None);
    assert_eq!(input.files, None);
}

#[test]
fn default_post_sits_on_the_default_board() {
    let post = Post::default();
    assert_eq!(post.board, "/b/");
    assert_eq!(post.op, "Me");
    assert_eq!(post.parent, None);
}
