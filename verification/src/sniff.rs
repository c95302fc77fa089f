//! Content sniffing: classify a byte buffer as a recognized binary file type
//! or as plain text, from the bytes alone, never from client metadata.

use vstd::prelude::*;
use mime_sniffer::MimeTypeSniffer;

verus! {

use vstd::string::StrSliceExecFns;
use vstd::string::StringExecFns;

/// The classification of a byte buffer: a MIME type such as `image/png` when
/// a known binary-format signature matches, or nothing when the bytes look
/// like ordinary text or form data. The magic-number tables live in the
/// `mime_sniffer` crate; only the classification's determinism is relied on
/// here.
pub uninterp spec fn sniffed_mime(b: Seq<u8>) -> Option<Seq<char>>;

/// Relies on mime_sniffer's MimeTypeSniffer::sniff_mime_type: a magic-number
/// table lookup determined by the byte content alone.
#[verifier::external_body]
pub(crate) fn sniff_mime(data: &[u8]) -> (r: Option<String>)
    ensures
        r is Some <==> sniffed_mime(data@) is Some,
        r is Some ==> r->Some_0@ == sniffed_mime(data@)->Some_0,
{
    data.sniff_mime_type().map(|s| s.to_owned())
}

/// Everything after the last '/' of a MIME type; the whole string when it has
/// no '/'. `image/png` yields the extension `png`.
pub open spec fn ext_spec(m: Seq<char>) -> Seq<char>
    decreases m.len(),
{
    if m.len() == 0 {
        Seq::empty()
    } else if m[m.len() - 1] == '/' {
        Seq::empty()
    } else {
        ext_spec(m.drop_last()) + seq![m[m.len() - 1]]
    }
}

proof fn lemma_ext_no_slash(m: Seq<char>)
    requires
        forall|j: int| 0 <= j < m.len() ==> m[j] != '/',
    ensures
        ext_spec(m) == m,
    decreases m.len(),
{
    if m.len() > 0 {
        lemma_ext_no_slash(m.drop_last());
        assert(ext_spec(m) =~= m);
    } else {
        assert(ext_spec(m) =~= m);
    }
}

proof fn lemma_ext_after_slash(m: Seq<char>, k: int)
    requires
        0 <= k < m.len(),
        m[k] == '/',
        forall|j: int| k < j < m.len() ==> m[j] != '/',
    ensures
        ext_spec(m) == m.subrange(k + 1, m.len() as int),
    decreases m.len(),
{
    if k == m.len() - 1 {
        assert(ext_spec(m) =~= m.subrange(k + 1, m.len() as int));
    } else {
        lemma_ext_after_slash(m.drop_last(), k);
        assert(ext_spec(m) =~= m.subrange(k + 1, m.len() as int));
    }
}

/// Extract the extension label from a MIME type: the part after its last '/'.
pub fn mime_extension(mime: &str) -> (r: String)
    ensures
        r@ == ext_spec(mime@),
{
    let n = mime.unicode_len();
    let mut slash: Option<usize> = None;
    let mut i: usize = 0;
    while i < n
        invariant
            0 <= i <= n,
            n == mime@.len(),
            match slash {
                Some(k) => 0 <= k < i && mime@[k as int] == '/' && (forall|j: int|
                    k < j < i ==> mime@[j] != '/'),
                None => forall|j: int| 0 <= j < i ==> mime@[j] != '/',
            },
        decreases n - i,
    {
        if mime.get_char(i) == '/' {
            slash = Some(i);
        }
        i += 1;
    }
    match slash {
        Some(k) => {
            let ext = mime.substring_char(k + 1, n);
            proof {
                lemma_ext_after_slash(mime@, k as int);
            }
            ext.to_owned()
        },
        None => {
            proof {
                lemma_ext_no_slash(mime@);
            }
            mime.to_owned()
        },
    }
}

} // verus!
