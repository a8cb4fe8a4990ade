//! The plain text of a mail's body.
//!
//! The remote service hands a mail over as a tree of parts. A part has a
//! MIME type, may have data, and may have parts of its own. The data of a
//! text part is base64 in one of several spellings, or now and then the text
//! itself. The text of a mail for a MIME type is the text of the part of that
//! type, or what the texts of the parts below it give when joined.

use vstd::prelude::*;
use vstd::utf8::{decode_utf8, valid_utf8};
use base64::Engine;
use crate::models::text_view;
use crate::texts::{concat, is_empty_text, spells};

verus! {

/// A header line of a mail part.
#[derive(Debug)]
pub struct Header {
    pub name: Option<String>,
    pub value: Option<String>,
}

/// What a [`Header`] holds, as mathematical values.
pub struct HeaderView {
    pub name: Option<Seq<char>>,
    pub value: Option<Seq<char>>,
}

impl View for Header {
    type V = HeaderView;

    open spec fn view(&self) -> HeaderView {
        HeaderView { name: text_view(self.name), value: text_view(self.value) }
    }
}

impl DeepView for Header {
    type V = HeaderView;

    open spec fn deep_view(&self) -> HeaderView {
        self@
    }
}

/// A part of a mail as the remote service hands it over.
#[derive(Debug)]
pub struct MessagePart {
    pub mime_type: Option<String>,
    pub headers: Vec<Header>,
    /// The data of the part's body, if it has a body with data.
    pub body_data: Option<Vec<u8>>,
    /// The parts below this one.
    pub parts: Vec<MessagePart>,
}

/// What a [`MessagePart`] holds, as mathematical values.
pub struct MessagePartView {
    pub mime_type: Option<Seq<char>>,
    pub headers: Seq<HeaderView>,
    pub body_data: Option<Seq<u8>>,
    pub parts: Seq<MessagePartView>,
}

/// The view of optional bytes.
pub open spec fn bytes_view(b: Option<Vec<u8>>) -> Option<Seq<u8>> {
    match b {
        Some(v) => Some(v@),
        None => None,
    }
}

/// The view of a part: its own fields, and the views of the parts below.
pub open spec fn part_view(part: MessagePart) -> MessagePartView
    decreases part,
{
    MessagePartView {
        mime_type: text_view(part.mime_type),
        headers: part.headers.deep_view(),
        body_data: bytes_view(part.body_data),
        parts: Seq::new(
            part.parts.len() as nat,
            |i: int|
                if 0 <= i < part.parts.len() {
                    part_view(part.parts[i])
                } else {
                    MessagePartView {
                        mime_type: None,
                        headers: Seq::empty(),
                        body_data: None,
                        parts: Seq::empty(),
                    }
                },
        ),
    }
}

impl View for MessagePart {
    type V = MessagePartView;

    open spec fn view(&self) -> MessagePartView {
        part_view(*self)
    }
}

impl DeepView for MessagePart {
    type V = MessagePartView;

    open spec fn deep_view(&self) -> MessagePartView {
        self@
    }
}

/// The bytes that `base64::Engine::decode` gives for the text `input`, or
/// `None` where it refuses the text, with the engine of the crate's
/// `general_purpose` module that the two flags pick: the alphabet that is
/// safe in URLs or the standard one, with padding required or forbidden.
pub uninterp spec fn base64_decoded(url_safe: bool, padded: bool, input: Seq<char>) -> Option<Seq<u8>>;

/// The text that `String::from_utf8_lossy` makes of `bytes`: what they spell
/// in UTF-8, with a replacement character wherever they spell nothing.
pub uninterp spec fn utf8_lossy(bytes: Seq<u8>) -> Seq<char>;

/// The text that `str::trim` leaves of `text`: `text` without the white
/// space at its two ends.
pub uninterp spec fn trimmed(text: Seq<char>) -> Seq<char>;

/// `text` with every `from` replaced by `to`.
pub open spec fn replaced(text: Seq<char>, from: char, to: char) -> Seq<char> {
    Seq::new(
        text.len(),
        |i: int|
            if text[i] == from {
                to
            } else {
                text[i]
            },
    )
}

/// Calls `decode` of `base64::engine::general_purpose::URL_SAFE_NO_PAD`. The
/// result is a function of the input alone; the contract gives it its name.
#[verifier::external_body]
fn decode_url_safe_no_pad(input: &str) -> (r: Option<Vec<u8>>)
    ensures
        bytes_view(r) == base64_decoded(true, false, input@),
{
    base64::engine::general_purpose::URL_SAFE_NO_PAD.decode(input).ok()
}

/// Calls `decode` of `base64::engine::general_purpose::URL_SAFE`. The result
/// is a function of the input alone; the contract gives it its name.
#[verifier::external_body]
fn decode_url_safe(input: &str) -> (r: Option<Vec<u8>>)
    ensures
        bytes_view(r) == base64_decoded(true, true, input@),
{
    base64::engine::general_purpose::URL_SAFE.decode(input).ok()
}

/// Calls `decode` of `base64::engine::general_purpose::STANDARD_NO_PAD`. The
/// result is a function of the input alone; the contract gives it its name.
#[verifier::external_body]
fn decode_standard_no_pad(input: &str) -> (r: Option<Vec<u8>>)
    ensures
        bytes_view(r) == base64_decoded(false, false, input@),
{
    base64::engine::general_purpose::STANDARD_NO_PAD.decode(input).ok()
}

/// Calls `decode` of `base64::engine::general_purpose::STANDARD`. The result
/// is a function of the input alone; the contract gives it its name.
#[verifier::external_body]
fn decode_standard(input: &str) -> (r: Option<Vec<u8>>)
    ensures
        bytes_view(r) == base64_decoded(false, true, input@),
{
    base64::engine::general_purpose::STANDARD.decode(input).ok()
}

/// Calls `String::from_utf8_lossy`. The contract gives the result its name.
#[verifier::external_body]
fn lossy_text(bytes: &Vec<u8>) -> (r: String)
    ensures
        r@ == utf8_lossy(bytes@),
{
    String::from_utf8_lossy(bytes).into_owned()
}

/// Calls `str::trim`. The contract gives the result its name.
#[verifier::external_body]
fn trim_text(text: &str) -> (r: String)
    ensures
        r@ == trimmed(text@),
{
    text.trim().to_owned()
}

/// Calls `str::replace` with a character to look for and a character to
/// put in its place: every occurrence is replaced, and nothing else changes.
#[verifier::external_body]
fn replace_char(text: &str, from: char, to: char) -> (r: String)
    ensures
        r@ == replaced(text@, from, to),
{
    text.replace(from, to.encode_utf8(&mut [0u8; 4]))
}

/// Calls `String::from_utf8`: the text that the bytes spell if they are
/// valid UTF-8, and nothing if they are not.
#[verifier::external_body]
fn text_from_utf8(bytes: Vec<u8>) -> (r: Option<String>)
    ensures
        text_view(r) == text_of_bytes(bytes@),
{
    String::from_utf8(bytes).ok()
}

/// The text that bytes spell, if they are valid UTF-8.
pub open spec fn text_of_bytes(bytes: Seq<u8>) -> Option<Seq<char>> {
    if valid_utf8(bytes) {
        Some(decode_utf8(bytes))
    } else {
        None
    }
}

/// The first of four attempts that succeeded, or the raw data if none did.
pub open spec fn first_success(
    a: Option<Seq<u8>>,
    b: Option<Seq<u8>>,
    c: Option<Seq<u8>>,
    d: Option<Seq<u8>>,
    raw: Seq<u8>,
) -> Seq<u8> {
    if a is Some {
        a->0
    } else if b is Some {
        b->0
    } else if c is Some {
        c->0
    } else if d is Some {
        d->0
    } else {
        raw
    }
}

/// The text of one part's data. The data are read as text and trimmed. They
/// are decoded with the URL-safe alphabet after `-` was turned into `+` and
/// `_` into `/`, without padding and then with it; failing that with the
/// standard alphabet, without padding and then with it. Failing all four,
/// the data are taken as they are. What comes out is the text if it is
/// valid UTF-8.
pub open spec fn part_text(data: Seq<u8>) -> Option<Seq<char>> {
    let text = trimmed(utf8_lossy(data));
    let swapped = replaced(replaced(text, '-', '+'), '_', '/');
    text_of_bytes(
        first_success(
            base64_decoded(true, false, swapped),
            base64_decoded(true, true, swapped),
            base64_decoded(false, false, text),
            base64_decoded(false, true, text),
            data,
        ),
    )
}

/// The texts in order, one after the other; where there is none, nothing is
/// added.
pub open spec fn joined(texts: Seq<Option<Seq<char>>>) -> Seq<char>
    decreases texts.len(),
{
    if texts.len() == 0 {
        Seq::empty()
    } else {
        joined(texts.drop_last()) + match texts.last() {
            Some(t) => t,
            None => Seq::empty(),
        }
    }
}

/// The text of a mail part for the MIME type `mime_type`: the text of the
/// part's own data if the part has that type and has data; otherwise the
/// texts of its parts for that type, joined, if that is not empty.
pub open spec fn text_body(part: MessagePartView, mime_type: Seq<char>) -> Option<Seq<char>>
    decreases part, 1int,
{
    if part.mime_type == Some(mime_type) && part.body_data is Some {
        part_text(part.body_data->0)
    } else {
        let below = joined(texts_below(part, mime_type));
        if below.len() > 0 {
            Some(below)
        } else {
            None
        }
    }
}

/// For each of the parts below `part`, its text for the MIME type
/// `mime_type`.
pub open spec fn texts_below(part: MessagePartView, mime_type: Seq<char>) -> Seq<
    Option<Seq<char>>,
>
    decreases part, 0int,
{
    Seq::new(
        part.parts.len(),
        |i: int|
            if 0 <= i < part.parts.len() {
                text_body(part.parts[i], mime_type)
            } else {
                None
            },
    )
}

/// The view of a part, field by field.
pub proof fn lemma_part_view(part: &MessagePart)
    ensures
        part@.mime_type == text_view(part.mime_type),
        part@.headers == part.headers.deep_view(),
        part@.body_data == bytes_view(part.body_data),
        part@.parts.len() == part.parts.len(),
        forall|k: int| 0 <= k < part.parts.len() ==> #[trigger] part@.parts[k] == part.parts[k]@,
{
}

/// Picks among four decoding attempts the first that succeeded, or the raw
/// data if none did.
pub fn pick_decoded(
    a: Option<Vec<u8>>,
    b: Option<Vec<u8>>,
    c: Option<Vec<u8>>,
    d: Option<Vec<u8>>,
    raw: &Vec<u8>,
) -> (r: Vec<u8>)
    ensures
        r@ == first_success(bytes_view(a), bytes_view(b), bytes_view(c), bytes_view(d), raw@),
{
    match a {
        Some(bytes) => bytes,
        None => match b {
            Some(bytes) => bytes,
            None => match c {
                Some(bytes) => bytes,
                None => match d {
                    Some(bytes) => bytes,
                    None => copy_bytes(raw),
                },
            },
        },
    }
}

/// A copy of the bytes.
pub fn copy_bytes(bytes: &Vec<u8>) -> (r: Vec<u8>)
    ensures
        r@ == bytes@,
{
    let mut out: Vec<u8> = Vec::new();
    let mut i: usize = 0;
    while i < bytes.len()
        invariant
            i <= bytes.len(),
            out@ == bytes@.take(i as int),
        decreases bytes.len() - i,
    {
        out.push(bytes[i]);
        assert(out@ =~= bytes@.take(i + 1));
        i += 1;
    }
    assert(bytes@.take(i as int) =~= bytes@);
    out
}

/// The text of one part's data.
pub fn decode_part_data(data: &Vec<u8>) -> (r: Option<String>)
    ensures
        text_view(r) == part_text(data@),
{
    let text = trim_text(lossy_text(data).as_str());
    let swapped = replace_char(replace_char(text.as_str(), '-', '+').as_str(), '_', '/');
    let a = decode_url_safe_no_pad(swapped.as_str());
    let b = decode_url_safe(swapped.as_str());
    let c = decode_standard_no_pad(text.as_str());
    let d = decode_standard(text.as_str());
    text_from_utf8(pick_decoded(a, b, c, d, data))
}

/// The text of the mail part `part` for the MIME type `mime_type`, if it has
/// one.
pub fn extract_text_body(part: &MessagePart, mime_type: &str) -> (r: Option<String>)
    ensures
        text_view(r) == text_body(part@, mime_type@),
    decreases part,
{
    proof {
        lemma_part_view(part);
    }
    match &part.mime_type {
        Some(mime) => {
            if spells(mime.as_str(), mime_type) {
                match &part.body_data {
                    Some(data) => {
                        return decode_part_data(data);
                    },
                    None => {},
                }
            }
        },
        None => {},
    }
    let ghost texts = texts_below(part@, mime_type@);
    let mut full_body = String::new();
    let mut i: usize = 0;
    while i < part.parts.len()
        invariant
            i <= part.parts.len(),
            texts.len() == part.parts.len(),
            forall|k: int| 0 <= k < texts.len() ==> texts[k] == text_body(part.parts[k]@, mime_type@),
            full_body@ == joined(texts.take(i as int)),
        decreases part.parts.len() - i,
    {
        proof {
            assert(texts.take(i + 1).drop_last() =~= texts.take(i as int));
        }
        match extract_text_body(&part.parts[i], mime_type) {
            Some(body) => {
                full_body = concat(full_body, body.as_str());
            },
            None => {
                assert(full_body@ + Seq::<char>::empty() =~= full_body@);
            },
        }
        i += 1;
    }
    proof {
        assert(texts.take(i as int) =~= texts);
    }
    if !is_empty_text(&full_body) {
        Some(full_body)
    } else {
        None
    }
}

} // verus!
