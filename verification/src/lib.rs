//! Imageboard post-ingestion library: content-addressed file naming, MIME
//! sniffing, a rotating captcha pool, challenge-binding cookies, and the
//! multipart field parser that assembles a post-input record.

pub mod captcha;
pub mod config;
pub mod data;
pub mod error;
pub mod form;
pub mod helpers;
pub mod middleware;
pub mod sniff;
pub mod templates;

pub use captcha::CaptchaService;
pub use data::Credentials;
pub use error::RequestError;
pub use form::parse_fields;
pub use helpers::format_name;
pub use middleware::verify_captcha;
pub use templates::Input;
