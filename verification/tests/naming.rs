use tokichan::helpers::{format_name, hash, str_eq, token};
use tokichan::sniff::mime_extension;

#[test]
fn name_is_deterministic() {
    let a = format_name(b"some file content", "png");
    let b = format_name(b"some file content", "png");
    assert_eq!(a, b);
}

#[test]
fn name_known_vector() {
    // RIPEMD-160 of "abc" is 8eb208f7e05d987a9b044a8e98c6b087f15a0bfc.
    assert_eq!(format_name(b"abc", "png"), "jrII9-BdmHqbBEqOmMawh_FaC_w.png");
}

#[test]
fn name_of_empty_content() {
    assert_eq!(format_name(b"", "bin"), "nBGFpcXp_FRhKAiXfuj1SLIljTE.bin");
}

#[test]
fn names_differ_for_different_content() {
    let a = format_name(b"abc", "png");
    let b = format_name(b"abd", "png");
    assert_ne!(a, b);
}

#[test]
fn hash_is_twenty_bytes() {
    let d = hash(b"abc");
    assert_eq!(d.len(), 20);
    assert_eq!(d[0], 0x8e);
    assert_eq!(d[19], 0xfc);
}

#[test]
fn token_known_vector() {
    assert_eq!(token("aB3x"), "UOdEw1QRD05mexe7Nx/OJCQhGec=");
}

#[test]
fn token_differs_from_text() {
    assert_ne!(token("aB3x"), "aB3x");
}

#[test]
fn extension_after_last_slash() {
    assert_eq!(mime_extension("image/png"), "png");
    assert_eq!(mime_extension("image/svg+xml"), "svg+xml");
    assert_eq!(mime_extension("plain"), "plain");
}

#[test]
fn str_eq_by_content() {
    assert!(str_eq("abc", "abc"));
    assert!(!str_eq("abc", "abd"));
}
