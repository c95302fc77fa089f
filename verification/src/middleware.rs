//! Challenge binding: issue a cookie holding the hash token of a drawn
//! challenge, and verify a resubmitted challenge text against that cookie.
//! The cookie never carries the plaintext secret.

use vstd::prelude::*;

verus! {

use vstd::string::StrSliceExecFns;
use vstd::string::StringExecFns;
use crate::error::RequestError;
use crate::helpers::{str_eq, token, token_spec};
use crate::templates::Input;

/// A `Cookie` header, split at every ';'. Splitting an empty header yields
/// one empty entry, as the header grammar has no empty entry list.
pub open spec fn split_semi(h: Seq<char>) -> Seq<Seq<char>>
    decreases h.len(),
{
    if h.len() == 0 {
        seq![Seq::<char>::empty()]
    } else {
        let rest = split_semi(h.drop_first());
        if h[0] == ';' {
            seq![Seq::<char>::empty()] + rest
        } else {
            seq![seq![h[0]] + rest[0]] + rest.drop_first()
        }
    }
}

pub open spec fn trim_front(s: Seq<char>) -> Seq<char>
    decreases s.len(),
{
    if s.len() > 0 && s[0] == ' ' {
        trim_front(s.drop_first())
    } else {
        s
    }
}

pub open spec fn trim_back(s: Seq<char>) -> Seq<char>
    decreases s.len(),
{
    if s.len() > 0 && s.last() == ' ' {
        trim_back(s.drop_last())
    } else {
        s
    }
}

/// An entry with its surrounding spaces removed.
pub open spec fn trim(s: Seq<char>) -> Seq<char> {
    trim_back(trim_front(s))
}

/// The value a single trimmed entry binds to the `captcha` cookie, if any.
pub open spec fn captcha_entry_value(e: Seq<char>) -> Option<Seq<char>> {
    if e.len() >= 8 && e.subrange(0, 8) == "captcha="@ {
        Some(e.skip(8))
    } else {
        None
    }
}

/// The first entry naming the `captcha` cookie decides.
pub open spec fn find_captcha(entries: Seq<Seq<char>>) -> Option<Seq<char>>
    decreases entries.len(),
{
    if entries.len() == 0 {
        None
    } else {
        match captcha_entry_value(trim(entries[0])) {
            Some(v) => Some(v),
            None => find_captcha(entries.drop_first()),
        }
    }
}

/// What a `Cookie` header holds for the `captcha` cookie: split at ';', trim
/// each entry, take the first `captcha=` binding.
pub open spec fn cookie_value_spec(h: Seq<char>) -> Option<Seq<char>> {
    find_captcha(split_semi(h))
}

proof fn lemma_split_nonempty(h: Seq<char>)
    ensures
        split_semi(h).len() >= 1,
    decreases h.len(),
{
    if h.len() > 0 {
        lemma_split_nonempty(h.drop_first());
    }
}

proof fn lemma_split_first_segment(t: Seq<char>, k: int)
    requires
        0 <= k <= t.len(),
        forall|j: int| 0 <= j < k ==> t[j] != ';',
        k < t.len() ==> t[k] == ';',
    ensures
        k < t.len() ==> split_semi(t) == seq![t.take(k)] + split_semi(t.skip(k + 1)),
        k == t.len() ==> split_semi(t) == seq![t],
    decreases k,
{
    lemma_split_nonempty(t);
    if k == 0 {
        if 0 < t.len() {
            assert(t.take(0) =~= Seq::<char>::empty());
            assert(t.drop_first() =~= t.skip(1));
            assert(split_semi(t) =~~= seq![t.take(0)] + split_semi(t.skip(1)));
        } else {
            assert(t =~= Seq::<char>::empty());
            assert(split_semi(t) =~~= seq![t]);
        }
    } else {
        let d = t.drop_first();
        lemma_split_first_segment(d, k - 1);
        lemma_split_nonempty(d);
        if k < t.len() {
            assert(d.take(k - 1) =~= t.take(k).drop_first());
            assert(seq![t[0]] + t.take(k).drop_first() =~= t.take(k));
            assert(d.skip(k) =~= t.skip(k + 1));
            assert(split_semi(t) =~~= seq![t.take(k)] + split_semi(t.skip(k + 1)));
        } else {
            assert(seq![t[0]] + d =~= t);
            assert(split_semi(t) =~~= seq![t]);
        }
    }
}

proof fn lemma_trim_front_at(s: Seq<char>, k: int)
    requires
        0 <= k <= s.len(),
        forall|j: int| 0 <= j < k ==> s[j] == ' ',
        k < s.len() ==> s[k] != ' ',
    ensures
        trim_front(s) == s.skip(k),
    decreases k,
{
    if k == 0 {
        assert(s.skip(0) =~= s);
    } else {
        let d = s.drop_first();
        lemma_trim_front_at(d, k - 1);
        assert(d.skip(k - 1) =~= s.skip(k));
    }
}

proof fn lemma_trim_back_at(s: Seq<char>, m: int)
    requires
        0 <= m <= s.len(),
        forall|j: int| m <= j < s.len() ==> s[j] == ' ',
        m > 0 ==> s[m - 1] != ' ',
    ensures
        trim_back(s) == s.take(m),
    decreases s.len(),
{
    if m < s.len() {
        let d = s.drop_last();
        lemma_trim_back_at(d, m);
        assert(d.take(m) =~= s.take(m));
    } else {
        assert(s.take(m) =~= s);
    }
}

/// Whether one entry of the header, before trimming, binds the `captcha`
/// cookie, and to what.
fn check_entry(header: &str, start: usize, end: usize) -> (r: Option<String>)
    requires
        start <= end <= header@.len(),
    ensures
        r is Some <==> captcha_entry_value(trim(header@.subrange(start as int, end as int)))
            is Some,
        r is Some ==> Some(r->Some_0@) == captcha_entry_value(
            trim(header@.subrange(start as int, end as int)),
        ),
{
    let seg = header.substring_char(start, end);
    let ghost sv = seg@;
    let n = end - start;
    let mut lo: usize = 0;
    while lo < n
        invariant
            0 <= lo <= n,
            n == sv.len(),
            seg@ == sv,
            forall|j: int| 0 <= j < lo ==> sv[j] == ' ',
        ensures
            0 <= lo <= n,
            forall|j: int| 0 <= j < lo ==> sv[j] == ' ',
            lo < n ==> sv[lo as int] != ' ',
        decreases n - lo,
    {
        if seg.get_char(lo) != ' ' {
            break;
        }
        lo += 1;
    }
    let mut hi: usize = n;
    while hi > lo
        invariant
            lo <= hi <= n,
            n == sv.len(),
            seg@ == sv,
            forall|j: int| hi <= j < n ==> sv[j] == ' ',
        ensures
            lo <= hi <= n,
            forall|j: int| hi <= j < n ==> sv[j] == ' ',
            hi > lo ==> sv[hi - 1] != ' ',
        decreases hi,
    {
        if seg.get_char(hi - 1) != ' ' {
            break;
        }
        hi -= 1;
    }
    proof {
        lemma_trim_front_at(sv, lo as int);
        if hi == lo {
            lemma_trim_back_at(sv.skip(lo as int), 0);
        } else {
            lemma_trim_back_at(sv.skip(lo as int), hi - lo);
        }
        assert(sv.skip(lo as int).take(hi - lo) =~= sv.subrange(lo as int, hi as int));
        assert(trim(sv) == sv.subrange(lo as int, hi as int));
    }
    if hi - lo < 8 {
        return None;
    }
    let prefix = seg.substring_char(lo, lo + 8);
    if str_eq(prefix, "captcha=") {
        proof {
            assert(trim(sv).subrange(0, 8) =~= sv.subrange(lo as int, lo as int + 8));
            assert(trim(sv).skip(8) =~= sv.subrange(lo as int + 8, hi as int));
        }
        Some(seg.substring_char(lo + 8, hi).to_owned())
    } else {
        proof {
            assert(trim(sv).subrange(0, 8) =~= sv.subrange(lo as int, lo as int + 8));
        }
        None
    }
}

/// The value the request's `Cookie` header binds to the `captcha` cookie:
/// entries are split at ';', trimmed of spaces, and the first `captcha=`
/// entry decides. Nothing comes back from a header that never names it.
pub fn captcha_cookie_value(header: &str) -> (r: Option<String>)
    ensures
        r is Some <==> cookie_value_spec(header@) is Some,
        r is Some ==> Some(r->Some_0@) == cookie_value_spec(header@),
{
    let ghost h = header@;
    let n = header.unicode_len();
    let mut start: usize = 0;
    let mut i: usize = 0;
    proof {
        assert(h.skip(0) =~= h);
    }
    while i < n
        invariant
            0 <= start <= i <= n,
            n == h.len(),
            header@ == h,
            forall|j: int| start <= j < i ==> h[j] != ';',
            cookie_value_spec(h) == find_captcha(split_semi(h.skip(start as int))),
        decreases n - i,
    {
        if header.get_char(i) == ';' {
            let found = check_entry(header, start, i);
            proof {
                let t = h.skip(start as int);
                assert forall|j: int| 0 <= j < i - start implies t[j] != ';' by {
                    assert(t[j] == h[j + start]);
                }
                lemma_split_first_segment(t, i - start);
                assert(t.take(i - start) =~= h.subrange(start as int, i as int));
                assert(t.skip(i - start + 1) =~= h.skip(i as int + 1));
                lemma_split_nonempty(h.skip(i as int + 1));
                let entries = seq![h.subrange(start as int, i as int)] + split_semi(
                    h.skip(i as int + 1),
                );
                assert(split_semi(t) =~~= entries);
                assert(entries[0] == h.subrange(start as int, i as int));
                assert(entries.drop_first() =~= split_semi(h.skip(i as int + 1)));
            }
            match found {
                Some(v) => {
                    return Some(v);
                },
                None => {},
            }
            start = i + 1;
        }
        i += 1;
    }
    let found = check_entry(header, start, n);
    let ghost t = h.skip(start as int);
    proof {
        assert forall|j: int| 0 <= j < n - start implies t[j] != ';' by {
            assert(t[j] == h[j + start]);
        }
        lemma_split_first_segment(t, n - start);
        assert(t =~= h.subrange(start as int, n as int));
        assert(seq![t][0] == h.subrange(start as int, n as int));
    }
    match found {
        Some(v) => {
            proof {
                assert(find_captcha(seq![t]) is Some);
            }
            Some(v)
        },
        None => {
            proof {
                assert(find_captcha(seq![t]) == find_captcha(seq![t].drop_first()));
                assert(seq![t].drop_first() =~= Seq::<Seq<char>>::empty());
                assert(find_captcha(Seq::<Seq<char>>::empty()) is None);
            }
            None
        },
    }
}

/// A submission passes the challenge check exactly when the cookie is present
/// and holds the token of the submitted text.
pub open spec fn captcha_matches(captcha: Seq<char>, cookie: Option<Seq<char>>) -> bool {
    cookie == Some(token_spec(captcha))
}

/// The `Set-Cookie` value issued alongside a drawn challenge: the token of
/// its secret under the `captcha` name, bound to the whole site, over a
/// secure channel only, unreadable from scripts, and never sent cross-site.
pub open spec fn issue_cookie_spec(secret: Seq<char>) -> Seq<char> {
    "captcha="@ + token_spec(secret) + "; Path=/; Secure; HttpOnly; SameSite=Strict"@
}

/// Build the `Set-Cookie` value for a freshly drawn challenge secret.
pub fn captcha_cookie(secret: &str) -> (r: String)
    ensures
        r@ == issue_cookie_spec(secret@),
{
    let mut s: String = "captcha=".to_owned();
    let t = token(secret);
    s.append(t.as_str());
    s.append("; Path=/; Secure; HttpOnly; SameSite=Strict");
    proof {
        assert(s@ =~= issue_cookie_spec(secret@));
    }
    s
}

/// Verify a parsed submission against the challenge cookie: on a match the
/// record passes through unchanged; a missing cookie and a wrong value both
/// collapse into the same rejection, so nothing about the expected value
/// leaks.
pub fn verify_captcha(input: Input, cookie: Option<&String>) -> (r: Result<Input, RequestError>)
    ensures
        r is Ok <==> captcha_matches(
            input.captcha@,
            match cookie {
                Some(c) => Some(c@),
                None => None,
            },
        ),
        r is Ok ==> r->Ok_0 == input,
        r is Err ==> r->Err_0 == RequestError::IncorrectCaptcha,
{
    match cookie {
        None => Err(RequestError::IncorrectCaptcha),
        Some(c) => {
            let expected = token(input.captcha.as_str());
            if expected == *c {
                Ok(input)
            } else {
                Err(RequestError::IncorrectCaptcha)
            }
        },
    }
}

/// Law: binding correctness. Against a cookie issued for `secret`,
/// resubmitting exactly `secret` passes the check, and a submission passes
/// exactly when its token equals the issued one — so any text whose token
/// differs from the secret's is rejected.
pub proof fn lemma_binding_correctness(
    secret: Seq<char>,
    submitted: Seq<char>,
    cookie: Option<Seq<char>>,
)
    requires
        cookie == Some(token_spec(secret)),
    ensures
        submitted == secret ==> captcha_matches(submitted, cookie),
        captcha_matches(submitted, cookie) <==> token_spec(submitted) == token_spec(secret),
{
}

/// Law: no cookie, no acceptance. A submission without the challenge cookie
/// never passes the check, however good its text.
pub proof fn lemma_no_cookie_rejects(submitted: Seq<char>)
    ensures
        !captcha_matches(submitted, None),
{
}

} // verus!
