use tokichan::captcha::{generate, CaptchaService, MyCaptcha};
use tokichan::data::Credentials;
use tokichan::error::RequestError;
use tokichan::helpers::token;
use tokichan::middleware::{captcha_cookie, captcha_cookie_value, verify_captcha};
use tokichan::templates::Input;

fn challenge(phrase: &str) -> MyCaptcha {
    MyCaptcha(phrase.to_owned(), vec![1, 2, 3])
}

#[test]
fn empty_pool_is_refused() {
    assert!(CaptchaService::from_challenges(vec![]).is_none());
}

#[test]
fn malformed_challenge_is_refused() {
    // Three characters instead of the fixed four.
    assert!(CaptchaService::from_challenges(vec![challenge("aB3")]).is_none());
    // A character outside the alphanumeric alphabet.
    assert!(CaptchaService::from_challenges(vec![challenge("aB3!")]).is_none());
}

#[test]
fn draw_returns_a_pool_member() {
    let service = CaptchaService::from_challenges(vec![challenge("aB3x"), challenge("Zz9q")])
        .unwrap();
    for _ in 0..20 {
        let c = service.recv();
        assert!(c.0 == "aB3x" || c.0 == "Zz9q");
    }
}

#[test]
fn failed_rotation_keeps_the_pool() {
    let mut service = CaptchaService::from_challenges(vec![challenge("aB3x")]).unwrap();
    service.refresh(None);
    assert_eq!(service.recv().0, "aB3x");
    service.refresh(Some(vec![]));
    assert_eq!(service.recv().0, "aB3x");
    service.refresh(Some(vec![challenge("bad")]));
    assert_eq!(service.recv().0, "aB3x");
}

#[test]
fn successful_rotation_swaps_the_pool() {
    let mut service = CaptchaService::from_challenges(vec![challenge("aB3x")]).unwrap();
    service.refresh(Some(vec![challenge("Qq77")]));
    assert_eq!(service.recv().0, "Qq77");
}

#[test]
fn wrong_sized_rotation_keeps_the_pool() {
    // Rotation regenerates the full pool; a batch of another size is refused.
    let mut service = CaptchaService::from_challenges(vec![challenge("aB3x")]).unwrap();
    service.refresh(Some(vec![challenge("Qq77"), challenge("Rr88")]));
    assert_eq!(service.recv().0, "aB3x");
}

#[test]
fn bad_font_fails_initialization() {
    assert!(generate(3, vec![0, 1, 2, 3]).is_none());
    assert!(CaptchaService::new(3, vec![0, 1, 2, 3]).is_none());
}

#[test]
fn issued_cookie_holds_the_token() {
    assert_eq!(
        captcha_cookie("aB3x"),
        "captcha=UOdEw1QRD05mexe7Nx/OJCQhGec=; Path=/; Secure; HttpOnly; SameSite=Strict"
    );
}

#[test]
fn cookie_header_scan() {
    assert_eq!(captcha_cookie_value("captcha=abc"), Some("abc".to_owned()));
    assert_eq!(
        captcha_cookie_value("a=1; captcha=xyz; b=2"),
        Some("xyz".to_owned())
    );
    assert_eq!(captcha_cookie_value(" captcha=tok "), Some("tok".to_owned()));
    assert_eq!(captcha_cookie_value("a=1; b=2"), None);
    assert_eq!(captcha_cookie_value(""), None);
    // The first binding decides.
    assert_eq!(
        captcha_cookie_value("captcha=first; captcha=second"),
        Some("first".to_owned())
    );
}

#[test]
fn issued_cookie_round_trips_through_the_scanner() {
    let header = captcha_cookie("aB3x");
    assert_eq!(captcha_cookie_value(&header), Some(token("aB3x")));
}

fn input_with_captcha(text: &str) -> Input {
    let mut input = Input::default();
    input.captcha = text.to_owned();
    input
}

#[test]
fn matching_captcha_is_accepted() {
    let cookie = token("aB3x");
    let input = input_with_captcha("aB3x");
    let out = verify_captcha(input, Some(&cookie)).unwrap();
    assert_eq!(out.captcha, "aB3x");
}

#[test]
fn wrong_case_captcha_is_rejected() {
    let cookie = token("aB3x");
    let input = input_with_captcha("ab3x");
    assert_eq!(
        verify_captcha(input, Some(&cookie)).unwrap_err(),
        RequestError::IncorrectCaptcha
    );
}

#[test]
fn absent_cookie_is_rejected() {
    let input = input_with_captcha("aB3x");
    assert_eq!(
        verify_captcha(input, None).unwrap_err(),
        RequestError::IncorrectCaptcha
    );
}

#[test]
fn credentials_do_not_self_authenticate() {
    let creds = Credentials {
        username: "mod".to_owned(),
        password: "hunter2".to_owned(),
        salt: "abcdefghijklmnop".to_owned(),
        role: None,
    };
    assert!(!creds.authenticate());
}

#[test]
fn password_hash_is_salted_and_deterministic() {
    let creds = Credentials {
        username: "mod".to_owned(),
        password: "hunter2".to_owned(),
        salt: "abcdefghijklmnop".to_owned(),
        role: None,
    };
    let h1 = creds.hash().unwrap();
    let h2 = creds.hash().unwrap();
    assert_eq!(h1, h2);
    assert_ne!(h1, "hunter2");
    let bad_salt = Credentials { salt: "!".to_owned(), ..creds };
    assert!(bad_salt.hash().is_none());
}
