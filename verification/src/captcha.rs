//! The challenge service: a pool of captcha challenges, drawn from at random
//! per request and replaced wholesale on rotation. The pool is never empty
//! while the service lives; a failed rotation keeps the previous pool.

use vstd::prelude::*;
use rand::distributions::DistString;
use rand::seq::SliceRandom;

verus! {

use vstd::string::StrSliceExecFns;

/// How many characters a challenge phrase has.
pub const CHALLENGE_LEN: u32 = 4;

/// How many characters the per-rotation alphabet has.
pub const SOURCE_LEN: usize = 6;

/// Rendered challenge image width, in pixels.
pub const IMAGE_WIDTH: u32 = 120;

/// Rendered challenge image height, in pixels.
pub const IMAGE_HEIGHT: u32 = 40;

/// A challenge: its secret phrase and the rendered image a client sees.
#[derive(Debug)]
pub struct MyCaptcha(pub String, pub Vec<u8>);

/// The mathematical value of a challenge.
#[verifier::ext_equal]
pub ghost struct ChallengeView {
    pub phrase: Seq<char>,
    pub image: Seq<u8>,
}

impl View for MyCaptcha {
    type V = ChallengeView;

    open spec fn view(&self) -> ChallengeView {
        ChallengeView { phrase: self.0@, image: self.1@ }
    }
}

pub open spec fn is_alnum_char(c: char) -> bool {
    ('a' <= c && c <= 'z') || ('A' <= c && c <= 'Z') || ('0' <= c && c <= '9')
}

/// A challenge is well formed when its phrase has the fixed length and stays
/// inside the alphanumeric alphabet.
pub open spec fn challenge_wf(c: ChallengeView) -> bool {
    c.phrase.len() == CHALLENGE_LEN && (forall|i: int|
        0 <= i < c.phrase.len() ==> is_alnum_char(#[trigger] c.phrase[i]))
}

/// Whether the bytes are a usable challenge font: they parse as a font face
/// whose line height is positive and which carries a drawable outline and
/// horizontal metrics for every alphanumeric character. The verdict is a
/// pure reading of the face's tables, so it depends on the bytes alone.
pub uninterp spec fn font_usable(data: Seq<u8>) -> bool;

/// Relies on ttf_parser's Face::from_slice, glyph_index, number_of_glyphs,
/// glyph_bounding_box, glyph_hor_advance, glyph_hor_side_bearing, ascender
/// and descender — the same parser, in the same version, that the renderer's
/// own font type wraps — each a pure query of the face's tables. A face that
/// passes hands the renderer an in-range glyph with an outline and metrics
/// for every alphanumeric character it is asked to draw, which is what keeps
/// the renderer's glyph lookups from aborting.
#[verifier::external_body]
fn check_font(data: &Vec<u8>) -> (r: bool)
    ensures
        r == font_usable(data@),
{
    let face = match ttf_parser::Face::from_slice(data.as_slice(), 0) {
        Ok(f) => f,
        Err(_) => return false,
    };
    face.ascender() > face.descender() && ('a'..='z').chain('A'..='Z').chain('0'..='9').all(|c| {
        match face.glyph_index(c) {
            Some(g) => g.0 < face.number_of_glyphs()
                && face.glyph_bounding_box(g).is_some()
                && face.glyph_hor_advance(g).is_some()
                && face.glyph_hor_side_bearing(g).is_some(),
            None => false,
        }
    })
}

/// Relies on rand's Alphanumeric distribution: a string of exactly `len`
/// characters, each from A-Z, a-z or 0-9. Which characters come out is
/// random, so nothing more is assumed.
#[verifier::external_body]
fn random_alphanumeric(len: usize) -> (r: String)
    ensures
        r@.len() == len,
        forall|i: int| 0 <= i < r@.len() ==> is_alnum_char(#[trigger] r@[i]),
{
    rand::distributions::Alphanumeric.sample_string(&mut rand::thread_rng(), len)
}

/// Relies on rand's SliceRandom::choose: some element of the slice, or
/// nothing exactly when it is empty. Which element is random, so only
/// membership is assumed.
#[verifier::external_body]
fn choose_challenge(pool: &Vec<MyCaptcha>) -> (r: Option<&MyCaptcha>)
    ensures
        r is Some <==> pool@.len() > 0,
        r is Some ==> exists|k: int| 0 <= k < pool@.len() && *r->Some_0 == pool@[k],
{
    pool.as_slice().choose(&mut rand::thread_rng())
}

/// Relies on captcha_a's CaptchaBuilder::build: the phrase has exactly
/// `length` characters, each taken from `source`; the image is a PNG
/// rendering of the phrase in the given size. The preconditions keep the
/// builder inside its own arithmetic: a usable font and an alphanumeric
/// source give every drawn glyph an outline, metrics and an in-range index;
/// an area of at least 4000 pixels keeps the decoration-count ranges
/// non-empty; a width of at least twenty pixels per character keeps the type
/// size positive; and sides of at most 8192 pixels keep the pixel
/// coordinates inside the builder's 32-bit integers.
#[verifier::external_body]
fn render_challenge(
    font_data: &Vec<u8>,
    source: &String,
    length: u32,
    width: u32,
    height: u32,
) -> (r: Option<MyCaptcha>)
    requires
        font_usable(font_data@),
        1 <= length,
        20 * length <= width,
        20 <= height,
        width <= 8192,
        height <= 8192,
        4000 <= width * height,
        source@.len() >= 1,
        forall|i: int| 0 <= i < source@.len() ==> is_alnum_char(#[trigger] source@[i]),
    ensures
        r is Some ==> r->Some_0@.phrase.len() == length as int,
        r is Some ==> forall|i: int|
            0 <= i < length as int ==> source@.contains(#[trigger] r->Some_0@.phrase[i]),
{
    let font = captcha_a::Font::try_from_vec(font_data.clone())?;
    let fonts = [font];
    let builder = captcha_a::CaptchaBuilder {
        width,
        height,
        length,
        source: source.clone(),
        background_color: None,
        fonts: &fonts,
        max_behind_lines: None,
        max_front_lines: None,
        max_ellipse_lines: None,
    };
    builder.build().ok().map(|c| MyCaptcha(c.phrase, c.raw_data))
}

/// A rotation's secret seed: the fixed number of characters, all
/// alphanumeric.
pub open spec fn source_wf(source: Seq<char>) -> bool {
    source.len() == SOURCE_LEN && (forall|j: int|
        0 <= j < source.len() ==> is_alnum_char(#[trigger] source[j]))
}

/// Every character of the phrase is drawn from `source`.
pub open spec fn phrase_from_source(phrase: Seq<char>, source: Seq<char>) -> bool {
    forall|k: int| 0 <= k < phrase.len() ==> source.contains(#[trigger] phrase[k])
}

/// Every phrase of the batch is drawn from the one `source`.
pub open spec fn batch_from_source(batch: Seq<MyCaptcha>, source: Seq<char>) -> bool {
    forall|i: int| 0 <= i < batch.len() ==> phrase_from_source(#[trigger] batch[i]@.phrase, source)
}

/// Render a batch of `amount` challenges sharing one freshly drawn secret
/// seed, or nothing when the font is unusable or a rendering fails.
/// Every challenge that comes out is well formed, and all of one batch's
/// phrases draw from the one seed.
pub fn generate(amount: usize, font_data: Vec<u8>) -> (r: Option<Vec<MyCaptcha>>)
    ensures
        !font_usable(font_data@) ==> r is None,
        r is Some ==> r->Some_0@.len() == amount,
        r is Some ==> forall|i: int|
            0 <= i < amount ==> challenge_wf(#[trigger] r->Some_0@[i]@),
        r is Some ==> exists|source: Seq<char>|
            #[trigger] source_wf(source) && batch_from_source(r->Some_0@, source),
{
    if !check_font(&font_data) {
        return None;
    }
    let source = random_alphanumeric(SOURCE_LEN);
    let mut out: Vec<MyCaptcha> = Vec::new();
    let mut i: usize = 0;
    while i < amount
        invariant
            0 <= i <= amount,
            font_usable(font_data@),
            out@.len() == i,
            source_wf(source@),
            forall|j: int| 0 <= j < out@.len() ==> challenge_wf(#[trigger] out@[j]@),
            batch_from_source(out@, source@),
        decreases amount - i,
    {
        match render_challenge(&font_data, &source, CHALLENGE_LEN, IMAGE_WIDTH, IMAGE_HEIGHT) {
            Some(c) => {
                proof {
                    assert forall|k: int| 0 <= k < c@.phrase.len() implies is_alnum_char(
                        #[trigger] c@.phrase[k],
                    ) by {
                        let j = choose|j: int|
                            0 <= j < source@.len() && source@[j] == c@.phrase[k];
                    }
                    assert(phrase_from_source(c@.phrase, source@));
                }
                out.push(c);
                proof {
                    assert forall|j: int| 0 <= j < out@.len() implies phrase_from_source(
                        #[trigger] out@[j]@.phrase,
                        source@,
                    ) by {
                        if j == out@.len() - 1 {
                            assert(out@[j] == c);
                        }
                    }
                }
            },
            None => {
                return None;
            },
        }
        i += 1;
    }
    proof {
        assert(exists|s: Seq<char>| source_wf(s) && #[trigger] batch_from_source(out@, s)) by {
            assert(source_wf(source@) && batch_from_source(out@, source@));
        }
    }
    Some(out)
}

/// The rotating pool of live challenges. Shared across requests behind a
/// read-mostly handle owned by the caller; rotation replaces the whole pool
/// at once, so a reader always sees either the old pool or the new one.
pub struct CaptchaService {
    pool: Vec<MyCaptcha>,
}

impl CaptchaService {
    /// The pool's contents, as mathematical values.
    pub closed spec fn pool_view(&self) -> Seq<ChallengeView> {
        self.pool@.map_values(|c: MyCaptcha| c@)
    }

    /// The service invariant: the pool is never empty, and every challenge in
    /// it is well formed. `new` establishes it; `refresh` preserves it; so at
    /// every instant after initialization a draw has a challenge to return.
    pub closed spec fn wf(&self) -> bool {
        self.pool@.len() > 0 && (forall|i: int|
            0 <= i < self.pool@.len() ==> challenge_wf(#[trigger] self.pool@[i]@))
    }

    /// Check one challenge against the well-formedness invariant.
    fn challenge_ok(c: &MyCaptcha) -> (r: bool)
        ensures
            r == challenge_wf(c@),
    {
        let phrase: &str = c.0.as_str();
        let n = phrase.unicode_len();
        if n != CHALLENGE_LEN as usize {
            return false;
        }
        let mut i: usize = 0;
        while i < n
            invariant
                0 <= i <= n,
                n == phrase@.len(),
                phrase@ == c@.phrase,
                forall|j: int| 0 <= j < i ==> is_alnum_char(#[trigger] phrase@[j]),
            decreases n - i,
        {
            let ch = phrase.get_char(i);
            if !(('a' <= ch && ch <= 'z') || ('A' <= ch && ch <= 'Z') || ('0' <= ch && ch
                <= '9')) {
                return false;
            }
            i += 1;
        }
        true
    }

    /// Build a service over a caller-supplied pool; nothing when the pool is
    /// empty or holds a malformed challenge.
    pub fn from_challenges(pool: Vec<MyCaptcha>) -> (r: Option<CaptchaService>)
        ensures
            r is Some <==> pool@.len() > 0 && (forall|i: int|
                0 <= i < pool@.len() ==> challenge_wf(#[trigger] pool@[i]@)),
            r is Some ==> r->Some_0.wf() && r->Some_0.pool_view() == pool@.map_values(
                |c: MyCaptcha| c@,
            ),
    {
        if pool.len() == 0 {
            return None;
        }
        let mut i: usize = 0;
        let n = pool.len();
        while i < n
            invariant
                0 <= i <= n,
                n == pool@.len(),
                forall|j: int| 0 <= j < i ==> challenge_wf(#[trigger] pool@[j]@),
            decreases n - i,
        {
            if !Self::challenge_ok(&pool[i]) {
                return None;
            }
            i += 1;
        }
        Some(CaptchaService { pool })
    }

    /// Initialize the service: render `amount` challenges and make them the
    /// pool. Nothing comes back when rendering resources are unavailable —
    /// font data that is not a usable font never yields a service — and no
    /// partial service exists in that case.
    pub fn new(amount: usize, font_data: Vec<u8>) -> (r: Option<CaptchaService>)
        requires
            amount >= 1,
        ensures
            !font_usable(font_data@) ==> r is None,
            r is Some ==> r->Some_0.wf(),
            r is Some ==> r->Some_0.pool_view().len() == amount,
    {
        match generate(amount, font_data) {
            Some(pool) => Some(CaptchaService { pool }),
            None => None,
        }
    }

    /// Draw a challenge: a well-formed member of the current pool. A live
    /// service always has one to give.
    pub fn recv(&self) -> (r: &MyCaptcha)
        requires
            self.wf(),
        ensures
            challenge_wf(r@),
            exists|k: int| 0 <= k < self.pool_view().len() && r@ == self.pool_view()[k],
    {
        let r = choose_challenge(&self.pool);
        match r {
            Some(c) => {
                proof {
                    let k = choose|k: int| 0 <= k < self.pool@.len() && *c == self.pool@[k];
                    assert(self.pool_view()[k] == self.pool@[k]@);
                }
                c
            },
            None => {
                proof {
                    assert(false);
                }
                unreached()
            },
        }
    }

    /// Rotate the pool: a well-formed replacement of the pool's own size is
    /// swapped in whole; anything else — a failed generation, a wrongly sized
    /// or malformed batch — is discarded and the previous pool stays, so the
    /// service keeps serving at its configured size.
    pub fn refresh(&mut self, attempt: Option<Vec<MyCaptcha>>)
        requires
            old(self).wf(),
        ensures
            final(self).wf(),
            final(self).pool_view().len() == old(self).pool_view().len(),
            match attempt {
                Some(v) => {
                    if v@.len() == old(self).pool_view().len() && (forall|i: int|
                        0 <= i < v@.len() ==> challenge_wf(#[trigger] v@[i]@)) {
                        final(self).pool_view() == v@.map_values(|c: MyCaptcha| c@)
                    } else {
                        final(self).pool_view() == old(self).pool_view()
                    }
                },
                None => final(self).pool_view() == old(self).pool_view(),
            },
    {
        match attempt {
            Some(v) => {
                if v.len() != self.pool.len() {
                    return;
                }
                match Self::from_challenges(v) {
                    Some(fresh) => {
                        *self = fresh;
                    },
                    None => {},
                }
            },
            None => {},
        }
    }

    /// Law: pool availability. A service satisfying its invariant — as every
    /// one built by `new` and kept through `refresh` does — always has a
    /// non-empty pool of well-formed challenges for `recv` to draw from.
    pub proof fn lemma_pool_available(&self)
        requires
            self.wf(),
        ensures
            self.pool_view().len() > 0,
            forall|i: int|
                0 <= i < self.pool_view().len() ==> challenge_wf(#[trigger] self.pool_view()[i]),
    {
    }
}

} // verus!
