//! Mails on their way in and out: how a mail that the remote service hands
//! over becomes a row of the store, and how a mail to send is written down.

use vstd::prelude::*;
use crate::body::{extract_text_body, lemma_part_view, text_body, Header, HeaderView, MessagePart};
use crate::models::{copy_text, text_view, Label, LabelView, Message, MessageView};
use crate::texts::{concat, contains_text, spells};

verus! {

/// A mail as the remote service hands it over.
#[derive(Debug)]
pub struct RemoteMessage {
    pub id: Option<String>,
    pub thread_id: Option<String>,
    pub snippet: Option<String>,
    pub internal_date: Option<i64>,
    pub label_ids: Option<Vec<String>>,
    pub payload: Option<MessagePart>,
}

/// The value of the last header of `headers` that is named `name`, if there
/// is such a header and it has a value.
pub open spec fn header_value(headers: Seq<HeaderView>, name: Seq<char>) -> Option<Seq<char>>
    decreases headers.len(),
{
    if headers.len() == 0 {
        None
    } else if headers.last().name == Some(name) {
        headers.last().value
    } else {
        header_value(headers.drop_last(), name)
    }
}

/// What a text that may be missing spells: nothing, if it is missing.
pub open spec fn text_or_empty(t: Option<Seq<char>>) -> Seq<char> {
    match t {
        Some(s) => s,
        None => Seq::empty(),
    }
}

/// The labels of a mail, if it has any.
pub open spec fn labels_view(l: Option<Vec<String>>) -> Seq<Seq<char>> {
    match l {
        Some(v) => v.deep_view(),
        None => Seq::empty(),
    }
}

/// The headers of a mail's payload, if it has one.
pub open spec fn payload_headers(p: Option<MessagePart>) -> Seq<HeaderView> {
    match p {
        Some(part) => part@.headers,
        None => Seq::empty(),
    }
}

/// The plain text of a mail's payload, if it has one.
pub open spec fn payload_text(p: Option<MessagePart>) -> Option<Seq<char>> {
    match p {
        Some(part) => text_body(part@, "text/plain"@),
        None => None,
    }
}

/// The row that the store keeps of the mail `remote`: sender, recipient and
/// subject from the headers of that name, the plain text of the payload as
/// body, and the read flag set unless the mail carries the label `UNREAD`. A
/// missing id spells nothing and a missing date is 0.
pub open spec fn assembled(remote: RemoteMessage) -> MessageView {
    MessageView {
        id: text_or_empty(text_view(remote.id)),
        thread_id: text_or_empty(text_view(remote.thread_id)),
        snippet: text_view(remote.snippet),
        from_address: header_value(payload_headers(remote.payload), "From"@),
        to_address: header_value(payload_headers(remote.payload), "To"@),
        subject: header_value(payload_headers(remote.payload), "Subject"@),
        internal_date: match remote.internal_date {
            Some(d) => d,
            None => 0,
        },
        body_plain: payload_text(remote.payload),
        body_html: None,
        is_read: !labels_view(remote.label_ids).contains("UNREAD"@),
    }
}

/// The value of the last header of `headers` that is named `name`.
pub fn find_header(headers: &Vec<Header>, name: &str) -> (r: Option<String>)
    ensures
        text_view(r) == header_value(headers.deep_view(), name@),
{
    let ghost all = headers.deep_view();
    let mut found: Option<String> = None;
    let mut i: usize = 0;
    while i < headers.len()
        invariant
            i <= headers.len(),
            all == headers.deep_view(),
            text_view(found) == header_value(all.take(i as int), name@),
        decreases headers.len() - i,
    {
        proof {
            assert(all.take(i + 1).drop_last() =~= all.take(i as int));
        }
        match &headers[i].name {
            Some(n) => {
                if spells(n.as_str(), name) {
                    found = copy_text(&headers[i].value);
                }
            },
            None => {},
        }
        i += 1;
    }
    proof {
        assert(all.take(i as int) =~= all);
    }
    found
}

/// A copy of a text that may be missing; the empty text, if it is missing.
fn text_or_default(t: &Option<String>) -> (r: String)
    ensures
        r@ == text_or_empty(text_view(*t)),
{
    match t {
        Some(s) => s.clone(),
        None => String::new(),
    }
}

/// The row that the store keeps of the mail `remote`.
pub fn assemble_message(remote: &RemoteMessage) -> (r: Message)
    ensures
        r@ == assembled(*remote),
{
    let mut from: Option<String> = None;
    let mut to: Option<String> = None;
    let mut subject: Option<String> = None;
    let mut body_plain: Option<String> = None;
    match &remote.payload {
        Some(part) => {
            proof {
                lemma_part_view(part);
            }
            from = find_header(&part.headers, "From");
            to = find_header(&part.headers, "To");
            subject = find_header(&part.headers, "Subject");
            body_plain = extract_text_body(part, "text/plain");
        },
        None => {},
    }
    let unread = "UNREAD".to_owned();
    let is_read = match &remote.label_ids {
        Some(labels) => !contains_text(labels, &unread),
        None => true,
    };
    Message {
        id: text_or_default(&remote.id),
        thread_id: text_or_default(&remote.thread_id),
        snippet: copy_text(&remote.snippet),
        from_address: from,
        to_address: to,
        subject,
        internal_date: match remote.internal_date {
            Some(d) => d,
            None => 0,
        },
        body_plain,
        body_html: None,
        is_read,
    }
}

/// The label that the store keeps of a label that the remote service lists:
/// a missing id, name or kind spells nothing, and the display name is left
/// empty.
pub open spec fn listed_label(
    id: Option<Seq<char>>,
    name: Option<Seq<char>>,
    label_type: Option<Seq<char>>,
    text_color: Option<Seq<char>>,
    background_color: Option<Seq<char>>,
) -> LabelView {
    LabelView {
        id: text_or_empty(id),
        name: text_or_empty(name),
        label_type: text_or_empty(label_type),
        color_foreground: text_color,
        color_background: background_color,
        display_name: Seq::empty(),
    }
}

/// The label that the store keeps of a label that the remote service lists.
pub fn label_from_remote(
    id: Option<String>,
    name: Option<String>,
    label_type: Option<String>,
    text_color: Option<String>,
    background_color: Option<String>,
) -> (r: Label)
    ensures
        r@ == listed_label(
            text_view(id),
            text_view(name),
            text_view(label_type),
            text_view(text_color),
            text_view(background_color),
        ),
{
    Label {
        id: text_or_default(&id),
        name: text_or_default(&name),
        label_type: text_or_default(&label_type),
        color_foreground: text_color,
        color_background: background_color,
        display_name: String::new(),
    }
}

/// The ids of a listing in which some entries have none: those that are
/// there, in order.
pub open spec fn present_ids(listed: Seq<Option<Seq<char>>>) -> Seq<Seq<char>>
    decreases listed.len(),
{
    if listed.len() == 0 {
        Seq::empty()
    } else {
        match listed.last() {
            Some(id) => present_ids(listed.drop_last()).push(id),
            None => present_ids(listed.drop_last()),
        }
    }
}

/// What each entry of a listing holds, as mathematical values.
pub open spec fn listing_view(listed: Seq<Option<String>>) -> Seq<Option<Seq<char>>> {
    Seq::new(listed.len(), |k: int| text_view(listed[k]))
}

/// The message ids of a page as the remote service lists it: the entries
/// that have an id, in order.
pub fn listed_ids(listed: &Vec<Option<String>>) -> (r: Vec<String>)
    ensures
        r.deep_view() == present_ids(listing_view(listed@)),
{
    let ghost all = listing_view(listed@);
    let mut out: Vec<String> = Vec::new();
    let mut i: usize = 0;
    while i < listed.len()
        invariant
            i <= listed.len(),
            all == listing_view(listed@),
            out.deep_view() == present_ids(all.take(i as int)),
        decreases listed.len() - i,
    {
        let ghost before = out.deep_view();
        proof {
            assert(all.take(i + 1).drop_last() =~= all.take(i as int));
            assert(all.take(i + 1).last() == text_view(listed[i as int]));
        }
        match &listed[i] {
            Some(id) => {
                out.push(id.clone());
                assert(out.deep_view() =~= before.push(id@));
            },
            None => {},
        }
        i += 1;
    }
    proof {
        assert(all.take(i as int) =~= all);
    }
    out
}

/// A mail to send as the remote service takes it: the header lines, an empty
/// line, and the body.
pub open spec fn raw_mail(to: Seq<char>, subject: Seq<char>, body: Seq<char>) -> Seq<char> {
    "From: me\r\nTo: "@ + to + "\r\nSubject: "@ + subject
        + "\r\nContent-Type: text/plain; charset=\"UTF-8\"\r\n\r\n"@ + body
}

/// Writes down a mail to send.
pub fn raw_message(to: &str, subject: &str, body: &str) -> (r: String)
    ensures
        r@ == raw_mail(to@, subject@, body@),
{
    let mut raw = "From: me\r\nTo: ".to_owned();
    raw = concat(raw, to);
    raw = concat(raw, "\r\nSubject: ");
    raw = concat(raw, subject);
    raw = concat(raw, "\r\nContent-Type: text/plain; charset=\"UTF-8\"\r\n\r\n");
    raw = concat(raw, body);
    raw
}

} // verus!
