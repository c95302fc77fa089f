//! The multipart field parser: walk the submitted fields in order, classify
//! each as file or text by content sniffing, persist files under their
//! content-addressed names, and assemble the post-input record.

use vstd::prelude::*;

verus! {

use vstd::slice::slice_to_vec;
use vstd::string::StrSliceExecFns;
use vstd::string::StringExecFns;
use vstd::utf8::decode_utf8;
use vstd::utf8::valid_utf8;
use crate::error::{InputError, RequestError};
use crate::helpers::name_spec;
use crate::helpers::format_name;
use crate::helpers::str_eq;
use crate::sniff::{ext_spec, mime_extension, sniff_mime, sniffed_mime};
use crate::templates::{empty_input, Input, InputView};

/// The form fields a validator can fault.
#[derive(Clone, Copy, Debug, PartialEq, Eq, Structural, Hash)]
pub enum Field {
    Op,
    Email,
    Subject,
    Body,
    Files,
}

/// Collects per-field validation failures. A later failure of the same field
/// replaces the recorded message, as a map insert would.
pub struct Validator {
    errors: Vec<(Field, String)>,
}

/// The failure map a run of recorded failures denotes: each entry inserted in
/// order, a later key overwriting an earlier one.
spec fn map_of(s: Seq<(Field, String)>) -> Map<Field, Seq<char>>
    decreases s.len(),
{
    if s.len() == 0 {
        Map::empty()
    } else {
        map_of(s.drop_last()).insert(s.last().0, s.last().1@)
    }
}

impl Validator {
    /// The failed checks so far: each faulted field with its latest message.
    pub closed spec fn errors(&self) -> Map<Field, Seq<char>> {
        map_of(self.errors@)
    }

    /// A validator that has seen no failure.
    pub fn new() -> (r: Validator)
        ensures
            r.errors() == Map::<Field, Seq<char>>::empty(),
    {
        Validator { errors: Vec::new() }
    }

    /// Record the outcome of one check: a failure maps the field to its
    /// message, replacing any earlier entry; a pass changes nothing.
    pub fn check(&mut self, ok: bool, k: Field, v: String)
        ensures
            ok ==> final(self).errors() == old(self).errors(),
            !ok ==> final(self).errors() == old(self).errors().insert(k, v@),
    {
        if !ok {
            let ghost prior = self.errors@;
            self.errors.push((k, v));
            proof {
                assert(self.errors@.drop_last() =~= prior);
            }
        }
    }

    /// Whether every check so far passed.
    pub fn valid(&self) -> (r: bool)
        ensures
            r == (self.errors() == Map::<Field, Seq<char>>::empty()),
    {
        proof {
            if self.errors@.len() > 0 {
                let last = self.errors@.last();
                assert(self.errors().contains_key(last.0));
                assert(!Map::<Field, Seq<char>>::empty().contains_key(last.0));
            }
        }
        self.errors.len() == 0
    }
}

/// One field of a submitted form: its declared name, if any, and its full
/// byte payload.
#[derive(Debug)]
pub struct FormField {
    pub name: Option<String>,
    pub data: Vec<u8>,
}

/// The mathematical value of a form field.
#[verifier::ext_equal]
pub ghost struct FormFieldView {
    pub name: Option<Seq<char>>,
    pub data: Seq<u8>,
}

impl View for FormField {
    type V = FormFieldView;

    open spec fn view(&self) -> FormFieldView {
        FormFieldView {
            name: match self.name {
                Some(s) => Some(s@),
                None => None,
            },
            data: self.data@,
        }
    }
}

/// A pending write to the file store: the content-addressed name and the
/// bytes to put under it.
#[derive(Debug)]
pub struct FileSave {
    pub name: String,
    pub data: Vec<u8>,
}

/// The mathematical value of a pending file write.
#[verifier::ext_equal]
pub ghost struct FileSaveView {
    pub name: Seq<char>,
    pub data: Seq<u8>,
}

impl View for FileSave {
    type V = FileSaveView;

    open spec fn view(&self) -> FileSaveView {
        FileSaveView { name: self.name@, data: self.data@ }
    }
}

/// A fully parsed form: the assembled record and the file writes it entails.
#[derive(Debug)]
pub struct ParsedForm {
    pub input: Input,
    pub saves: Vec<FileSave>,
}

/// The parser's state after some prefix of the fields: the record so far
/// (its `files` still unset), the file names seen, and the writes scheduled.
#[verifier::ext_equal]
pub ghost struct ParseState {
    pub rec: InputView,
    pub files: Seq<Seq<char>>,
    pub saves: Seq<FileSaveView>,
}

/// The state every parse starts from.
pub open spec fn init_state() -> ParseState {
    ParseState { rec: empty_input(), files: Seq::empty(), saves: Seq::empty() }
}

/// ASCII decimal digits, as bytes.
pub open spec fn byte_is_digit(b: u8) -> bool {
    48 <= b && b <= 57
}

pub open spec fn all_digits(s: Seq<u8>) -> bool {
    forall|i: int| 0 <= i < s.len() ==> byte_is_digit(s[i])
}

/// The value of an ASCII decimal numeral, leading zeroes allowed.
pub open spec fn digits_val(s: Seq<u8>) -> int
    decreases s.len(),
{
    if s.len() == 0 {
        0
    } else {
        digits_val(s.drop_last()) * 10 + (s.last() - 48)
    }
}

pub open spec fn is_digit_char(c: char) -> bool {
    '0' <= c && c <= '9'
}

/// The known text fields of the record, `parent` aside.
pub open spec fn is_text_key(key: Seq<char>) -> bool {
    ||| key == "board"@
    ||| key == "op"@
    ||| key == "email"@
    ||| key == "subject"@
    ||| key == "body"@
    ||| key == "captcha"@
}

/// A field name shaped like a file-slot placeholder: it starts with `file`
/// and ends in the slot digit.
pub open spec fn is_file_slot(key: Seq<char>) -> bool {
    key.len() >= 4 && key.subrange(0, 4) == "file"@ && is_digit_char(key.last())
}

/// The slot index a file-slot name carries.
pub open spec fn slot_of(key: Seq<char>) -> u32 {
    (key.last() as int - '0' as int) as u32
}

/// The record with one named text field replaced.
pub open spec fn set_text_field(rec: InputView, key: Seq<char>, text: Seq<char>) -> InputView {
    if key == "board"@ {
        InputView { board: text, ..rec }
    } else if key == "op"@ {
        InputView { op: text, ..rec }
    } else if key == "email"@ {
        InputView { email: text, ..rec }
    } else if key == "subject"@ {
        InputView { subject: text, ..rec }
    } else if key == "body"@ {
        InputView { body: text, ..rec }
    } else {
        InputView { captcha: text, ..rec }
    }
}

/// What one field does to the parser's state. A nameless field aborts the
/// parse; an empty payload is skipped; a payload that sniffs as a file type
/// is stored under its content-addressed name; anything else is routed by
/// field name into the record, or rejected.
pub open spec fn step_field(st: ParseState, f: FormFieldView) -> Result<ParseState, RequestError> {
    match f.name {
        None => Err(RequestError::MissingKey),
        Some(key) => {
            if f.data.len() == 0 {
                Ok(st)
            } else {
                match sniffed_mime(f.data) {
                    Some(mime) => {
                        let nm = name_spec(f.data, ext_spec(mime));
                        Ok(ParseState {
                            rec: st.rec,
                            files: st.files.push(nm),
                            saves: st.saves.push(FileSaveView { name: nm, data: f.data }),
                        })
                    },
                    None => {
                        if key == "parent"@ {
                            if all_digits(f.data) && digits_val(f.data) <= i32::MAX {
                                Ok(ParseState {
                                    rec: InputView { parent: Some(digits_val(f.data)), ..st.rec },
                                    ..st
                                })
                            } else {
                                Err(RequestError::InvalidParent)
                            }
                        } else if is_text_key(key) {
                            if valid_utf8(f.data) {
                                Ok(ParseState {
                                    rec: set_text_field(st.rec, key, decode_utf8(f.data)),
                                    ..st
                                })
                            } else {
                                Err(RequestError::InvalidText)
                            }
                        } else if is_file_slot(key) {
                            Err(RequestError::Input(InputError::Files(slot_of(key))))
                        } else {
                            Err(RequestError::UnknownField)
                        }
                    },
                }
            }
        },
    }
}

/// Fold `step_field` over the fields in arrival order, stopping at the first
/// fatal error.
pub open spec fn parse_rec(fields: Seq<FormFieldView>, st: ParseState) -> Result<
    ParseState,
    RequestError,
>
    decreases fields.len(),
{
    if fields.len() == 0 {
        Ok(st)
    } else {
        match step_field(st, fields[0]) {
            Ok(st2) => parse_rec(fields.drop_first(), st2),
            Err(e) => Err(e),
        }
    }
}

pub open spec fn fields_view(fields: Seq<FormField>) -> Seq<FormFieldView> {
    fields.map_values(|f: FormField| f@)
}

/// Close the record: the collected file names become its `files` list.
pub open spec fn finalize(st: ParseState) -> InputView {
    InputView { files: Some(st.files), ..st.rec }
}

/// What a whole form parses to: the finished record and the pending writes,
/// or the first fatal error.
pub open spec fn parse_spec(fields: Seq<FormFieldView>) -> Result<
    (InputView, Seq<FileSaveView>),
    RequestError,
> {
    match parse_rec(fields, init_state()) {
        Ok(st) => Ok((finalize(st), st.saves)),
        Err(e) => Err(e),
    }
}

#[verifier::external_type_specification]
#[verifier::external_body]
pub struct ExUtf8Error(core::str::Utf8Error);

/// Relies on str::from_utf8: it returns the decoded string exactly when the
/// bytes are valid UTF-8, and an error otherwise.
pub assume_specification<'a>[ core::str::from_utf8 ](v: &'a [u8]) -> (r: Result<
    &'a str,
    core::str::Utf8Error,
>)
    ensures
        r is Ok <==> valid_utf8(v@),
        r is Ok ==> r->Ok_0@ == decode_utf8(v@),
;

/// Decode a text payload; nothing outside valid UTF-8 is accepted.
fn decode_text(data: &[u8]) -> (r: Option<String>)
    ensures
        r is Some <==> valid_utf8(data@),
        r is Some ==> r->Some_0@ == decode_utf8(data@),
{
    match core::str::from_utf8(data) {
        Ok(s) => Some(s.to_owned()),
        Err(_) => None,
    }
}

proof fn lemma_digits_val_nonneg(s: Seq<u8>)
    requires
        all_digits(s),
    ensures
        digits_val(s) >= 0,
    decreases s.len(),
{
    if s.len() > 0 {
        assert(all_digits(s.drop_last()));
        lemma_digits_val_nonneg(s.drop_last());
    }
}

proof fn lemma_digits_val_prefix(s: Seq<u8>, i: int)
    requires
        all_digits(s),
        0 <= i <= s.len(),
    ensures
        digits_val(s.take(i)) <= digits_val(s),
    decreases s.len() - i,
{
    if i < s.len() {
        lemma_digits_val_prefix(s, i + 1);
        let t = s.take(i + 1);
        assert(t.drop_last() =~= s.take(i));
        assert(all_digits(t));
        lemma_digits_val_nonneg(t.drop_last());
        assert(digits_val(t) == digits_val(s.take(i)) * 10 + (t.last() - 48));
        assert(digits_val(s.take(i)) <= digits_val(t));
    } else {
        assert(s.take(i) =~= s);
    }
}

/// Parse a `parent` payload as an arbitrary-length decimal post id.
fn parse_parent(data: &[u8]) -> (r: Option<i32>)
    ensures
        r is Some <==> all_digits(data@) && digits_val(data@) <= i32::MAX,
        r is Some ==> r->Some_0 as int == digits_val(data@),
{
    let n = data.len();
    let mut value: i64 = 0;
    let mut i: usize = 0;
    while i < n
        invariant
            0 <= i <= n,
            n == data@.len(),
            all_digits(data@.take(i as int)),
            value == digits_val(data@.take(i as int)),
            0 <= value <= i32::MAX,
        decreases n - i,
    {
        let b = data[i];
        if b < 48 || b > 57 {
            proof {
                assert(!byte_is_digit(data@[i as int]));
            }
            return None;
        }
        value = value * 10 + ((b - 48) as i64);
        proof {
            assert(data@.take(i as int + 1).drop_last() =~= data@.take(i as int));
        }
        if value > i32::MAX as i64 {
            proof {
                if all_digits(data@) {
                    lemma_digits_val_prefix(data@, i as int + 1);
                }
            }
            return None;
        }
        i += 1;
    }
    proof {
        assert(data@.take(n as int) =~= data@);
    }
    Some(value as i32)
}

/// Recognize a file-slot name and extract its slot index.
fn file_slot(key: &str) -> (r: Option<u32>)
    ensures
        r is Some <==> is_file_slot(key@),
        r is Some ==> r->Some_0 == slot_of(key@),
{
    let n = key.unicode_len();
    if n < 4 {
        return None;
    }
    let prefix = key.substring_char(0, 4);
    if !str_eq(prefix, "file") {
        return None;
    }
    let c = key.get_char(n - 1);
    if '0' <= c && c <= '9' {
        Some(c as u32 - 48)
    } else {
        None
    }
}

/// Parse the fields of a submitted form, in arrival order, into a post-input
/// record and the file writes to perform. The first nameless field, unknown
/// field name, bad `parent` value, ill-encoded text, or unrecognized file
/// slot rejects the whole form.
pub fn parse_fields(fields: Vec<FormField>) -> (r: Result<ParsedForm, RequestError>)
    ensures
        match r {
            Ok(p) => parse_spec(fields_view(fields@)) == Ok::<_, RequestError>(
                (p.input@, p.saves@.map_values(|s: FileSave| s@)),
            ),
            Err(e) => parse_spec(fields_view(fields@)) == Err::<
                (InputView, Seq<FileSaveView>),
                _,
            >(e),
        },
{
    let ghost fv = fields_view(fields@);
    let mut input = Input::default();
    let mut files: Vec<String> = Vec::new();
    let mut saves: Vec<FileSave> = Vec::new();
    let n = fields.len();
    let mut i: usize = 0;
    proof {
        assert(fv.skip(0) =~= fv);
        assert(files@.map_values(|s: String| s@) =~= Seq::<Seq<char>>::empty());
        assert(saves@.map_values(|s: FileSave| s@) =~= Seq::<FileSaveView>::empty());
        assert(ParseState {
            rec: input@,
            files: files@.map_values(|s: String| s@),
            saves: saves@.map_values(|s: FileSave| s@),
        } =~= init_state());
    }
    while i < n
        invariant
            0 <= i <= n,
            n == fields@.len(),
            fv == fields_view(fields@),
            input@.files is None,
            parse_rec(fv, init_state()) == parse_rec(
                fv.skip(i as int),
                ParseState {
                    rec: input@,
                    files: files@.map_values(|s: String| s@),
                    saves: saves@.map_values(|s: FileSave| s@),
                },
            ),
        decreases n - i,
    {
        let ghost cur = ParseState {
            rec: input@,
            files: files@.map_values(|s: String| s@),
            saves: saves@.map_values(|s: FileSave| s@),
        };
        proof {
            assert(fv.skip(i as int)[0] == fv[i as int]);
            assert(fv[i as int] == fields@[i as int]@);
            assert(fv.skip(i as int).drop_first() =~= fv.skip(i as int + 1));
        }
        let field = &fields[i];
        match &field.name {
            None => {
                return Err(RequestError::MissingKey);
            },
            Some(key) => {
                if field.data.len() == 0 {
                } else {
                    match sniff_mime(field.data.as_slice()) {
                        Some(mime) => {
                            let ext = mime_extension(mime.as_str());
                            let nm = format_name(field.data.as_slice(), ext.as_str());
                            let data_copy = slice_to_vec(field.data.as_slice());
                            proof {
                                assert(nm@ == name_spec(
                                    field@.data,
                                    ext_spec(sniffed_mime(field@.data)->Some_0),
                                ));
                            }
                            files.push(nm.clone());
                            saves.push(FileSave { name: nm, data: data_copy });
                            proof {
                                assert(files@.map_values(|s: String| s@) =~= cur.files.push(
                                    name_spec(field@.data, ext_spec(sniffed_mime(field@.data)->Some_0)),
                                ));
                                assert(saves@.map_values(|s: FileSave| s@) =~= cur.saves.push(
                                    FileSaveView {
                                        name: name_spec(
                                            field@.data,
                                            ext_spec(sniffed_mime(field@.data)->Some_0),
                                        ),
                                        data: field@.data,
                                    },
                                ));
                            }
                        },
                        None => {
                            if str_eq(key.as_str(), "parent") {
                                match parse_parent(field.data.as_slice()) {
                                    Some(p) => {
                                        input.parent = Some(p);
                                    },
                                    None => {
                                        return Err(RequestError::InvalidParent);
                                    },
                                }
                            } else if str_eq(key.as_str(), "board") {
                                match decode_text(field.data.as_slice()) {
                                    Some(s) => input.board = s,
                                    None => {
                                        return Err(RequestError::InvalidText);
                                    },
                                }
                            } else if str_eq(key.as_str(), "op") {
                                match decode_text(field.data.as_slice()) {
                                    Some(s) => input.op = s,
                                    None => {
                                        return Err(RequestError::InvalidText);
                                    },
                                }
                            } else if str_eq(key.as_str(), "email") {
                                match decode_text(field.data.as_slice()) {
                                    Some(s) => input.email = s,
                                    None => {
                                        return Err(RequestError::InvalidText);
                                    },
                                }
                            } else if str_eq(key.as_str(), "subject") {
                                match decode_text(field.data.as_slice()) {
                                    Some(s) => input.subject = s,
                                    None => {
                                        return Err(RequestError::InvalidText);
                                    },
                                }
                            } else if str_eq(key.as_str(), "body") {
                                match decode_text(field.data.as_slice()) {
                                    Some(s) => input.body = s,
                                    None => {
                                        return Err(RequestError::InvalidText);
                                    },
                                }
                            } else if str_eq(key.as_str(), "captcha") {
                                match decode_text(field.data.as_slice()) {
                                    Some(s) => input.captcha = s,
                                    None => {
                                        return Err(RequestError::InvalidText);
                                    },
                                }
                            } else {
                                match file_slot(key.as_str()) {
                                    Some(slot) => {
                                        return Err(RequestError::Input(InputError::Files(slot)));
                                    },
                                    None => {
                                        return Err(RequestError::UnknownField);
                                    },
                                }
                            }
                        },
                    }
                }
            },
        }
        proof {
            let next = ParseState {
                rec: input@,
                files: files@.map_values(|s: String| s@),
                saves: saves@.map_values(|s: FileSave| s@),
            };
            assert(step_field(cur, fv[i as int]) == Ok::<_, RequestError>(next)) by {
                assert(step_field(cur, fv[i as int]) is Ok);
                assert(step_field(cur, fv[i as int])->Ok_0 =~= next);
            }
        }
        i += 1;
    }
    proof {
        assert(fv.skip(n as int) =~= Seq::empty());
    }
    input.files = Some(files);
    let ghost done = parse_rec(fv, init_state())->Ok_0;
    proof {
        assert(input@ =~= finalize(done));
    }
    Ok(ParsedForm { input, saves })
}

/// Law: routing never crosses the sniffer's verdict. A non-empty payload the
/// sniffer classifies as a file type only extends the file list, leaving
/// every text attribute alone; one it classifies as text leaves the file
/// list and the pending writes alone.
pub proof fn lemma_sniff_route_consistency(st: ParseState, f: FormFieldView)
    requires
        f.name is Some,
        f.data.len() > 0,
        step_field(st, f) is Ok,
    ensures
        sniffed_mime(f.data) is Some ==> {
            let st2 = step_field(st, f)->Ok_0;
            st2.rec == st.rec && st2.files.len() == st.files.len() + 1
        },
        sniffed_mime(f.data) is None ==> {
            let st2 = step_field(st, f)->Ok_0;
            st2.files == st.files && st2.saves == st.saves
        },
{
}

proof fn lemma_parse_rec_insert_empty(fields: Seq<FormFieldView>, k: int, f: FormFieldView, st: ParseState)
    requires
        0 <= k <= fields.len(),
        f.name is Some,
        f.data.len() == 0,
    ensures
        parse_rec(fields.insert(k, f), st) == parse_rec(fields, st),
    decreases fields.len(),
{
    let ins = fields.insert(k, f);
    if k == 0 {
        assert(ins[0] == f);
        assert(step_field(st, f) == Ok::<_, RequestError>(st));
        assert(ins.drop_first() =~= fields);
    } else {
        assert(ins[0] == fields[0]);
        match step_field(st, fields[0]) {
            Ok(st2) => {
                assert(ins.drop_first() =~= fields.drop_first().insert(k - 1, f));
                lemma_parse_rec_insert_empty(fields.drop_first(), k - 1, f, st2);
            },
            Err(_) => {},
        }
    }
}

/// Law: an empty payload is skipped entirely. Inserting a named field with a
/// zero-length payload anywhere in a form changes nothing about what the form
/// parses to: neither `files` nor any text attribute, nor the error.
pub proof fn lemma_empty_field_skip(fields: Seq<FormFieldView>, k: int, f: FormFieldView)
    requires
        0 <= k <= fields.len(),
        f.name is Some,
        f.data.len() == 0,
    ensures
        parse_spec(fields.insert(k, f)) == parse_spec(fields),
{
    lemma_parse_rec_insert_empty(fields, k, f, init_state());
}

} // verus!
