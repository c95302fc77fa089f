//! Configuration read at startup, and the upload-limit grammar: a decimal
//! count of bytes with an optional binary prefix, such as `10M` or `3 GiB`.

use vstd::prelude::*;

verus! {

use vstd::string::StrSliceExecFns;
use crate::helpers::str_eq;

/// The whole configuration file.
pub struct Config {
    pub psql: Psql,
    pub security: Security,
}

/// How to reach the persistence collaborator.
pub struct Psql {
    pub username: String,
    pub password: String,
    pub address: String,
}

/// The security surface: the upload size limit and the accepted MIME types.
pub struct Security {
    pub upload_limit: String,
    pub allowed_mimes: Vec<String>,
}

pub open spec fn is_digit_char(c: char) -> bool {
    '0' <= c && c <= '9'
}

/// How many digits the string starts with.
pub open spec fn leading_digits(s: Seq<char>) -> int
    decreases s.len(),
{
    if s.len() > 0 && is_digit_char(s[0]) {
        1 + leading_digits(s.drop_first())
    } else {
        0
    }
}

/// The whitespace the limit grammar skips between number and unit: space,
/// tab, and the line and page breaks.
pub open spec fn is_space_char(c: char) -> bool {
    c == ' ' || c == '\t' || c == '\n' || c == '\r' || c == '\u{000B}' || c == '\u{000C}'
}

/// How much whitespace the string starts with.
pub open spec fn leading_spaces(s: Seq<char>) -> int
    decreases s.len(),
{
    if s.len() > 0 && is_space_char(s[0]) {
        1 + leading_spaces(s.drop_first())
    } else {
        0
    }
}

/// The value of a decimal numeral, leading zeroes allowed.
pub open spec fn digits_char_val(s: Seq<char>) -> int
    decreases s.len(),
{
    if s.len() == 0 {
        0
    } else {
        digits_char_val(s.drop_last()) * 10 + (s.last() as int - '0' as int)
    }
}

/// The byte multiplier a unit suffix denotes: none, or a binary prefix with
/// an optional `i` and an optional `B`.
pub open spec fn multiplier(suffix: Seq<char>) -> Option<int> {
    if suffix == Seq::<char>::empty() || suffix == "B"@ {
        Some(1)
    } else if suffix == "K"@ || suffix == "Ki"@ || suffix == "KB"@ || suffix == "KiB"@ {
        Some(1024)
    } else if suffix == "M"@ || suffix == "Mi"@ || suffix == "MB"@ || suffix == "MiB"@ {
        Some((1024 * 1024) as int)
    } else if suffix == "G"@ || suffix == "Gi"@ || suffix == "GB"@ || suffix == "GiB"@ {
        Some((1024 * 1024 * 1024) as int)
    } else {
        None
    }
}

/// What an upload-limit string denotes: at least one digit, optional spaces,
/// an optional unit suffix, nothing else; the count of bytes it names.
pub open spec fn limit_spec(s: Seq<char>) -> Option<int> {
    let nd = leading_digits(s);
    if nd == 0 {
        None
    } else {
        let rest = s.skip(nd);
        let suffix = rest.skip(leading_spaces(rest));
        match multiplier(suffix) {
            Some(m) => Some(digits_char_val(s.take(nd)) * m),
            None => None,
        }
    }
}

proof fn lemma_leading_digits_at(s: Seq<char>, i: int)
    requires
        0 <= i <= s.len(),
        forall|j: int| 0 <= j < i ==> is_digit_char(#[trigger] s[j]),
        i < s.len() ==> !is_digit_char(s[i]),
    ensures
        leading_digits(s) == i,
    decreases i,
{
    if i == 0 {
    } else {
        lemma_leading_digits_at(s.drop_first(), i - 1);
    }
}

proof fn lemma_leading_spaces_at(s: Seq<char>, i: int)
    requires
        0 <= i <= s.len(),
        forall|j: int| 0 <= j < i ==> is_space_char(#[trigger] s[j]),
        i < s.len() ==> !is_space_char(s[i]),
    ensures
        leading_spaces(s) == i,
    decreases i,
{
    if i == 0 {
    } else {
        lemma_leading_spaces_at(s.drop_first(), i - 1);
    }
}

proof fn lemma_digits_char_val_nonneg(s: Seq<char>)
    requires
        forall|j: int| 0 <= j < s.len() ==> is_digit_char(#[trigger] s[j]),
    ensures
        digits_char_val(s) >= 0,
    decreases s.len(),
{
    if s.len() > 0 {
        lemma_digits_char_val_nonneg(s.drop_last());
    }
}

proof fn lemma_digits_char_val_prefix(s: Seq<char>, i: int)
    requires
        forall|j: int| 0 <= j < s.len() ==> is_digit_char(#[trigger] s[j]),
        0 <= i <= s.len(),
    ensures
        digits_char_val(s.take(i)) <= digits_char_val(s),
    decreases s.len() - i,
{
    if i < s.len() {
        lemma_digits_char_val_prefix(s, i + 1);
        let t = s.take(i + 1);
        assert(t.drop_last() =~= s.take(i));
        lemma_digits_char_val_nonneg(t.drop_last());
        assert(digits_char_val(t) == digits_char_val(s.take(i)) * 10 + (t.last() as int
            - '0' as int));
    } else {
        assert(s.take(i) =~= s);
    }
}

/// Whether the limit grammar skips this character between number and unit.
fn is_space(c: char) -> (r: bool)
    ensures
        r == is_space_char(c),
{
    c == ' ' || c == '\t' || c == '\n' || c == '\r' || c == '\u{000B}' || c == '\u{000C}'
}

/// Parse the unit suffix into its multiplier.
fn parse_multiplier(suffix: &str) -> (r: Option<u64>)
    ensures
        r is Some <==> multiplier(suffix@) is Some,
        r is Some ==> Some(r->Some_0 as int) == multiplier(suffix@),
        r is Some ==> 1 <= r->Some_0 <= 1073741824,
{
    if suffix.unicode_len() == 0 || str_eq(suffix, "B") {
        proof {
            if suffix@.len() == 0 {
                assert(suffix@ =~= Seq::<char>::empty());
            }
        }
        Some(1)
    } else if str_eq(suffix, "K") || str_eq(suffix, "Ki") || str_eq(suffix, "KB") || str_eq(
        suffix,
        "KiB",
    ) {
        Some(1024)
    } else if str_eq(suffix, "M") || str_eq(suffix, "Mi") || str_eq(suffix, "MB") || str_eq(
        suffix,
        "MiB",
    ) {
        Some(1048576)
    } else if str_eq(suffix, "G") || str_eq(suffix, "Gi") || str_eq(suffix, "GB") || str_eq(
        suffix,
        "GiB",
    ) {
        Some(1073741824)
    } else {
        proof {
            assert(suffix@.len() != 0 ==> suffix@ != Seq::<char>::empty());
        }
        None
    }
}

impl Security {
    /// Parse the configured upload limit into a count of bytes. Nothing comes
    /// back when the string leaves the grammar or the count does not fit the
    /// machine.
    pub fn validate_upload_limit(&self) -> (r: Option<usize>)
        ensures
            r is Some <==> (limit_spec(self.upload_limit@) is Some && limit_spec(
                self.upload_limit@,
            )->Some_0 <= usize::MAX),
            r is Some ==> Some(r->Some_0 as int) == limit_spec(self.upload_limit@),
    {
        let s: &str = self.upload_limit.as_str();
        let ghost sv = self.upload_limit@;
        let n = s.unicode_len();
        let mut value: u128 = 0;
        let mut i: usize = 0;
        while i < n
            invariant
                0 <= i <= n,
                n == sv.len(),
                s@ == sv,
                sv == self.upload_limit@,
                forall|j: int| 0 <= j < i ==> is_digit_char(#[trigger] sv[j]),
                value == digits_char_val(sv.take(i as int)),
                0 <= value <= usize::MAX,
            ensures
                0 <= i <= n,
                forall|j: int| 0 <= j < i ==> is_digit_char(#[trigger] sv[j]),
                value == digits_char_val(sv.take(i as int)),
                0 <= value <= usize::MAX,
                i < n ==> !is_digit_char(sv[i as int]),
            decreases n - i,
        {
            let c = s.get_char(i);
            if !('0' <= c && c <= '9') {
                break;
            }
            value = value * 10 + ((c as u32 - 48) as u128);
            proof {
                assert(sv.take(i as int + 1).drop_last() =~= sv.take(i as int));
            }
            if value > usize::MAX as u128 {
                proof {
                    digits_overflow_case(sv, i as int + 1);
                }
                return None;
            }
            i += 1;
        }
        let nd = i;
        proof {
            lemma_leading_digits_at(sv, nd as int);
        }
        if nd == 0 {
            return None;
        }
        while i < n
            invariant
                nd <= i <= n,
                n == sv.len(),
                s@ == sv,
                forall|j: int| nd <= j < i ==> is_space_char(#[trigger] sv[j]),
            ensures
                nd <= i <= n,
                forall|j: int| nd <= j < i ==> is_space_char(#[trigger] sv[j]),
                i < n ==> !is_space_char(sv[i as int]),
            decreases n - i,
        {
            if !is_space(s.get_char(i)) {
                break;
            }
            i += 1;
        }
        proof {
            lemma_spaces_shift(sv, nd as int, i as int);
        }
        let suffix = s.substring_char(i, n);
        proof {
            assert(suffix@ =~= sv.skip(nd as int).skip(leading_spaces(sv.skip(nd as int))));
        }
        match parse_multiplier(suffix) {
            Some(m) => {
                proof {
                    assert(value as int * (m as int) <= usize::MAX as int * 1073741824int) by (
                    nonlinear_arith)
                        requires
                            0 <= value <= usize::MAX,
                            1 <= m <= 1073741824,
                    ;
                }
                let total: u128 = value * (m as u128);
                if total > usize::MAX as u128 {
                    None
                } else {
                    Some(total as usize)
                }
            },
            None => None,
        }
    }
}

proof fn digits_overflow_case(s: Seq<char>, i: int)
    requires
        0 <= i <= s.len(),
        forall|j: int| 0 <= j < i ==> is_digit_char(#[trigger] s[j]),
        digits_char_val(s.take(i)) > usize::MAX,
    ensures
        limit_spec(s) is Some ==> limit_spec(s)->Some_0 > usize::MAX,
{
    let nd = leading_digits(s);
    if limit_spec(s) is Some {
        lemma_leading_digits_le(s);
        lemma_leading_digits_all(s);
        if i <= nd {
            assert(s.take(nd).take(i) =~= s.take(i));
            lemma_digits_char_val_prefix(s.take(nd), i);
        } else {
            assert(!is_digit_char(s[nd]));
            assert(false);
        }
        let m = multiplier(s.skip(nd).skip(leading_spaces(s.skip(nd))))->Some_0;
        assert(m >= 1);
        lemma_digits_char_val_nonneg(s.take(nd));
        assert(digits_char_val(s.take(nd)) * m >= digits_char_val(s.take(nd)) * 1) by (
        nonlinear_arith)
            requires
                m >= 1,
                digits_char_val(s.take(nd)) >= 0,
        ;
    }
}

proof fn lemma_leading_digits_le(s: Seq<char>)
    ensures
        0 <= leading_digits(s) <= s.len(),
    decreases s.len(),
{
    if s.len() > 0 && is_digit_char(s[0]) {
        lemma_leading_digits_le(s.drop_first());
    }
}

proof fn lemma_leading_digits_all(s: Seq<char>)
    ensures
        forall|j: int| 0 <= j < leading_digits(s) ==> is_digit_char(#[trigger] s[j]),
        leading_digits(s) < s.len() ==> !is_digit_char(s[leading_digits(s)]),
    decreases s.len(),
{
    if s.len() > 0 && is_digit_char(s[0]) {
        lemma_leading_digits_all(s.drop_first());
        lemma_leading_digits_le(s.drop_first());
        assert forall|j: int| 0 <= j < leading_digits(s) implies is_digit_char(
            #[trigger] s[j],
        ) by {
            if j > 0 {
                assert(is_digit_char(s.drop_first()[j - 1]));
            }
        }
    }
}

proof fn lemma_spaces_shift(s: Seq<char>, nd: int, i: int)
    requires
        0 <= nd <= i <= s.len(),
        forall|j: int| nd <= j < i ==> is_space_char(#[trigger] s[j]),
        i < s.len() ==> !is_space_char(s[i]),
    ensures
        leading_spaces(s.skip(nd)) == i - nd,
{
    let rest = s.skip(nd);
    assert forall|j: int| 0 <= j < i - nd implies is_space_char(#[trigger] rest[j]) by {
        assert(rest[j] == s[j + nd]);
    }
    lemma_leading_spaces_at(rest, i - nd);
}

} // verus!
