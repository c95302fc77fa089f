//! Content-addressed naming: a RIPEMD-160 digest of the content, encoded in
//! URL-safe base64 without padding, with a type label appended. The same
//! digest, in standard base64, also serves as the captcha comparison token.

use vstd::prelude::*;
use ripemd::Digest;
use base64::Engine;

verus! {

use vstd::string::StrSliceExecFns;
use vstd::string::StringExecFns;
use vstd::utf8::encode_utf8;

/// The digest of a byte sequence under RIPEMD-160. The algorithm itself is
/// not restated here; the `ripemd` crate computes it.
pub uninterp spec fn ripemd160_of(b: Seq<u8>) -> Seq<u8>;

/// Relies on ripemd's Ripemd160: a 20-byte digest determined by the input
/// bytes alone.
#[verifier::external_body]
fn ripemd160_digest(input: &[u8]) -> (r: Vec<u8>)
    ensures
        r@ == ripemd160_of(input@),
        r@.len() == 20,
{
    let mut hasher = ripemd::Ripemd160::new();
    hasher.update(input);
    hasher.finalize().to_vec()
}

/// The base64 alphabet of RFC 4648 section 4.
pub open spec fn b64_std_alphabet() -> Seq<char> {
    seq![
        'A', 'B', 'C', 'D', 'E', 'F', 'G', 'H', 'I', 'J', 'K', 'L', 'M', 'N', 'O', 'P', 'Q',
        'R', 'S', 'T', 'U', 'V', 'W', 'X', 'Y', 'Z', 'a', 'b', 'c', 'd', 'e', 'f', 'g', 'h',
        'i', 'j', 'k', 'l', 'm', 'n', 'o', 'p', 'q', 'r', 's', 't', 'u', 'v', 'w', 'x', 'y',
        'z', '0', '1', '2', '3', '4', '5', '6', '7', '8', '9', '+', '/',
    ]
}

/// The URL-safe base64 alphabet of RFC 4648 section 5.
pub open spec fn b64_url_alphabet() -> Seq<char> {
    seq![
        'A', 'B', 'C', 'D', 'E', 'F', 'G', 'H', 'I', 'J', 'K', 'L', 'M', 'N', 'O', 'P', 'Q',
        'R', 'S', 'T', 'U', 'V', 'W', 'X', 'Y', 'Z', 'a', 'b', 'c', 'd', 'e', 'f', 'g', 'h',
        'i', 'j', 'k', 'l', 'm', 'n', 'o', 'p', 'q', 'r', 's', 't', 'u', 'v', 'w', 'x', 'y',
        'z', '0', '1', '2', '3', '4', '5', '6', '7', '8', '9', '-', '_',
    ]
}

/// Base64 encoding over a given alphabet: each group of three bytes becomes
/// four characters of six bits each; a trailing group of one or two bytes
/// becomes two or three characters, padded with '=' only when `pad` is set.
pub open spec fn b64_encode_with(alpha: Seq<char>, pad: bool, b: Seq<u8>) -> Seq<char>
    decreases b.len(),
{
    if b.len() == 0 {
        Seq::empty()
    } else if b.len() == 1 {
        let b0 = b[0] as int;
        seq![alpha[b0 / 4], alpha[(b0 % 4) * 16]] + (if pad {
            seq!['=', '=']
        } else {
            Seq::empty()
        })
    } else if b.len() == 2 {
        let b0 = b[0] as int;
        let b1 = b[1] as int;
        seq![alpha[b0 / 4], alpha[(b0 % 4) * 16 + b1 / 16], alpha[(b1 % 16) * 4]] + (if pad {
            seq!['=']
        } else {
            Seq::empty()
        })
    } else {
        let b0 = b[0] as int;
        let b1 = b[1] as int;
        let b2 = b[2] as int;
        seq![
            alpha[b0 / 4],
            alpha[(b0 % 4) * 16 + b1 / 16],
            alpha[(b1 % 16) * 4 + b2 / 64],
            alpha[b2 % 64],
        ] + b64_encode_with(alpha, pad, b.skip(3))
    }
}

/// Standard base64 with padding, as `base64`'s STANDARD engine produces.
pub open spec fn b64_std(b: Seq<u8>) -> Seq<char> {
    b64_encode_with(b64_std_alphabet(), true, b)
}

/// URL-safe base64 without padding, as `base64`'s URL_SAFE_NO_PAD engine
/// produces.
pub open spec fn b64_url_nopad(b: Seq<u8>) -> Seq<char> {
    b64_encode_with(b64_url_alphabet(), false, b)
}

/// Relies on base64's STANDARD engine: RFC 4648 base64 with padding.
#[verifier::external_body]
fn b64_std_encode(b: &[u8]) -> (r: String)
    ensures
        r@ == b64_std(b@),
{
    base64::engine::general_purpose::STANDARD.encode(b)
}

/// Relies on base64's URL_SAFE_NO_PAD engine: RFC 4648 URL-safe base64
/// without padding.
#[verifier::external_body]
fn b64_url_nopad_encode(b: &[u8]) -> (r: String)
    ensures
        r@ == b64_url_nopad(b@),
{
    base64::engine::general_purpose::URL_SAFE_NO_PAD.encode(b)
}

/// String equality by character content.
pub fn str_eq(a: &str, b: &str) -> (r: bool)
    ensures
        r == (a@ == b@),
{
    let sa: String = a.to_owned();
    let sb: String = b.to_owned();
    sa == sb
}

/// The digest of `input`, as raw bytes.
pub fn hash(input: &[u8]) -> (r: Vec<u8>)
    ensures
        r@ == ripemd160_of(input@),
        r@.len() == 20,
{
    ripemd160_digest(input)
}

/// The stored name of a file: the URL-safe encoding of the digest of its
/// content, a dot, and the type label.
pub open spec fn name_spec(content: Seq<u8>, label: Seq<char>) -> Seq<char> {
    b64_url_nopad(ripemd160_of(content)) + seq!['.'] + label
}

/// Derive the content-addressed stored name for `content` with type `label`.
pub fn format_name(content: &[u8], label: &str) -> (r: String)
    ensures
        r@ == name_spec(content@, label@),
{
    let digest = ripemd160_digest(content);
    let mut s = b64_url_nopad_encode(digest.as_slice());
    s.append(".");
    s.append(label);
    proof {
        reveal_strlit(".");
        assert(s@ =~= name_spec(content@, label@));
    }
    s
}

/// The comparison token bound to a challenge: the standard base64 encoding of
/// the digest of the text's UTF-8 bytes.
pub open spec fn token_spec(text: Seq<char>) -> Seq<char> {
    b64_std(ripemd160_of(encode_utf8(text)))
}

/// Compute the comparison token for a challenge text.
pub fn token(text: &str) -> (r: String)
    ensures
        r@ == token_spec(text@),
{
    let digest = ripemd160_digest(text.as_bytes());
    b64_std_encode(digest.as_slice())
}

/// The code point that position `k` of the URL-safe alphabet carries.
spec fn url_code(k: int) -> int {
    if k < 26 {
        65 + k  // 'A' ..= 'Z'
    } else if k < 52 {
        71 + k  // 'a' ..= 'z'
    } else if k < 62 {
        k - 4  // '0' ..= '9'
    } else if k == 62 {
        45  // '-'
    } else {
        95  // '_'
    }
}

proof fn lemma_url_alpha_codes()
    ensures
        forall|k: int| 0 <= k < 64 ==> (#[trigger] b64_url_alphabet()[k]) as int == url_code(k),
{
    assert forall|k: int| 0 <= k < 64 implies (#[trigger] b64_url_alphabet()[k]) as int
        == url_code(k) by {
    }
}

proof fn lemma_url_alpha_inj(i: int, j: int)
    requires
        0 <= i < 64,
        0 <= j < 64,
        b64_url_alphabet()[i] == b64_url_alphabet()[j],
    ensures
        i == j,
{
    lemma_url_alpha_codes();
    assert(url_code(i) == url_code(j));
}

proof fn lemma_b64_len_eq(alpha: Seq<char>, pad: bool, a: Seq<u8>, b: Seq<u8>)
    requires
        a.len() == b.len(),
    ensures
        b64_encode_with(alpha, pad, a).len() == b64_encode_with(alpha, pad, b).len(),
    decreases a.len(),
{
    if a.len() >= 3 {
        lemma_b64_len_eq(alpha, pad, a.skip(3), b.skip(3));
    }
}

/// URL-safe base64 tells equal-length inputs apart: the encoding loses
/// nothing.
pub proof fn lemma_b64_url_injective(a: Seq<u8>, b: Seq<u8>)
    requires
        a.len() == b.len(),
        b64_url_nopad(a) == b64_url_nopad(b),
    ensures
        a == b,
    decreases a.len(),
{
    let alpha = b64_url_alphabet();
    let ea = b64_url_nopad(a);
    let eb = b64_url_nopad(b);
    if a.len() == 0 {
        assert(a =~= b);
    } else if a.len() == 1 {
        let a0 = a[0] as int;
        let b0 = b[0] as int;
        lemma_url_alpha_inj(a0 / 4, b0 / 4);
        lemma_url_alpha_inj((a0 % 4) * 16, (b0 % 4) * 16);
        assert(a =~= b);
    } else if a.len() == 2 {
        let a0 = a[0] as int;
        let a1 = a[1] as int;
        let b0 = b[0] as int;
        let b1 = b[1] as int;
        lemma_url_alpha_inj(a0 / 4, b0 / 4);
        lemma_url_alpha_inj((a0 % 4) * 16 + a1 / 16, (b0 % 4) * 16 + b1 / 16);
        lemma_url_alpha_inj((a1 % 16) * 4, (b1 % 16) * 4);
        assert(a =~= b);
    } else {
        let a0 = a[0] as int;
        let a1 = a[1] as int;
        let a2 = a[2] as int;
        let b0 = b[0] as int;
        let b1 = b[1] as int;
        let b2 = b[2] as int;
        assert(ea[0] == alpha[a0 / 4] && ea[1] == alpha[(a0 % 4) * 16 + a1 / 16] && ea[2]
            == alpha[(a1 % 16) * 4 + a2 / 64] && ea[3] == alpha[a2 % 64]);
        assert(eb[0] == alpha[b0 / 4] && eb[1] == alpha[(b0 % 4) * 16 + b1 / 16] && eb[2]
            == alpha[(b1 % 16) * 4 + b2 / 64] && eb[3] == alpha[b2 % 64]);
        lemma_url_alpha_inj(a0 / 4, b0 / 4);
        lemma_url_alpha_inj((a0 % 4) * 16 + a1 / 16, (b0 % 4) * 16 + b1 / 16);
        lemma_url_alpha_inj((a1 % 16) * 4 + a2 / 64, (b1 % 16) * 4 + b2 / 64);
        lemma_url_alpha_inj(a2 % 64, b2 % 64);
        assert(a0 % 4 == b0 % 4 && a1 / 16 == b1 / 16);
        assert(a1 % 16 == b1 % 16 && a2 / 64 == b2 / 64);
        assert(a0 == b0 && a1 == b1 && a2 == b2);
        assert(ea.skip(4) =~= b64_url_nopad(a.skip(3)));
        assert(eb.skip(4) =~= b64_url_nopad(b.skip(3)));
        lemma_b64_url_injective(a.skip(3), b.skip(3));
        assert forall|i: int| 0 <= i < a.len() implies a[i] == b[i] by {
            if i >= 3 {
                assert(a[i] == a.skip(3)[i - 3]);
                assert(b[i] == b.skip(3)[i - 3]);
            }
        }
        assert(a =~= b);
    }
}

/// Law: the naming scheme never conflates digests. Contents whose digests
/// differ get different stored names under any one label, because the
/// encoding is injective. That two different contents have differing digests
/// is the hash's collision resistance; no proof here claims it.
pub proof fn lemma_distinct_digests_distinct_names(b1: Seq<u8>, b2: Seq<u8>, label: Seq<char>)
    requires
        ripemd160_of(b1).len() == ripemd160_of(b2).len(),
        ripemd160_of(b1) != ripemd160_of(b2),
    ensures
        name_spec(b1, label) != name_spec(b2, label),
{
    let d1 = ripemd160_of(b1);
    let d2 = ripemd160_of(b2);
    let e1 = b64_url_nopad(d1);
    let e2 = b64_url_nopad(d2);
    lemma_b64_len_eq(b64_url_alphabet(), false, d1, d2);
    if name_spec(b1, label) == name_spec(b2, label) {
        assert forall|i: int| 0 <= i < e1.len() implies e1[i] == e2[i] by {
            assert(e1[i] == name_spec(b1, label)[i]);
            assert(e2[i] == name_spec(b2, label)[i]);
        }
        assert(e1 =~= e2);
        lemma_b64_url_injective(d1, d2);
    }
}

/// Law: content-addressed naming is deterministic — one content and label
/// admit exactly one stored name, so resubmitting the same bytes stores them
/// under the same name.
pub proof fn lemma_name_deterministic(content: Seq<u8>, label: Seq<char>, n1: Seq<char>, n2: Seq<char>)
    requires
        n1 == name_spec(content, label),
        n2 == name_spec(content, label),
    ensures
        n1 == n2,
{
}

} // verus!
