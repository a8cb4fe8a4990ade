//! The records that the mailbox mirror keeps: labels and messages.
//!
//! Strings are compared by what they spell, so every contract in this crate
//! speaks of a record through its view, in which each text field is a
//! `Seq<char>`.

use vstd::prelude::*;
use crate::keyed::Keyed;

verus! {

/// A label as the remote service names it.
#[derive(Debug, Clone)]
pub struct Label {
    pub id: String,
    pub name: String,
    /// Either `system` or `user`.
    pub label_type: String,
    pub color_foreground: Option<String>,
    pub color_background: Option<String>,
    pub display_name: String,
}

/// What a [`Label`] holds, as mathematical values.
pub struct LabelView {
    pub id: Seq<char>,
    pub name: Seq<char>,
    pub label_type: Seq<char>,
    pub color_foreground: Option<Seq<char>>,
    pub color_background: Option<Seq<char>>,
    pub display_name: Seq<char>,
}

/// One mail as the mirror keeps it.
#[derive(Debug, Clone)]
pub struct Message {
    pub id: String,
    pub thread_id: String,
    pub snippet: Option<String>,
    pub from_address: Option<String>,
    pub to_address: Option<String>,
    pub subject: Option<String>,
    /// Milliseconds since the epoch, as the remote service stamped the mail.
    pub internal_date: i64,
    pub body_plain: Option<String>,
    pub body_html: Option<String>,
    pub is_read: bool,
}

/// What a [`Message`] holds, as mathematical values.
pub struct MessageView {
    pub id: Seq<char>,
    pub thread_id: Seq<char>,
    pub snippet: Option<Seq<char>>,
    pub from_address: Option<Seq<char>>,
    pub to_address: Option<Seq<char>>,
    pub subject: Option<Seq<char>>,
    pub internal_date: i64,
    pub body_plain: Option<Seq<char>>,
    pub body_html: Option<Seq<char>>,
    pub is_read: bool,
}

/// The view of an optional text.
pub open spec fn text_view(t: Option<String>) -> Option<Seq<char>> {
    match t {
        Some(s) => Some(s@),
        None => None,
    }
}

impl View for Label {
    type V = LabelView;

    open spec fn view(&self) -> LabelView {
        LabelView {
            id: self.id@,
            name: self.name@,
            label_type: self.label_type@,
            color_foreground: text_view(self.color_foreground),
            color_background: text_view(self.color_background),
            display_name: self.display_name@,
        }
    }
}

impl DeepView for Label {
    type V = LabelView;

    open spec fn deep_view(&self) -> LabelView {
        self@
    }
}

impl View for Message {
    type V = MessageView;

    open spec fn view(&self) -> MessageView {
        MessageView {
            id: self.id@,
            thread_id: self.thread_id@,
            snippet: text_view(self.snippet),
            from_address: text_view(self.from_address),
            to_address: text_view(self.to_address),
            subject: text_view(self.subject),
            internal_date: self.internal_date,
            body_plain: text_view(self.body_plain),
            body_html: text_view(self.body_html),
            is_read: self.is_read,
        }
    }
}

impl DeepView for Message {
    type V = MessageView;

    open spec fn deep_view(&self) -> MessageView {
        self@
    }
}

impl Keyed for LabelView {
    open spec fn key(&self) -> Seq<char> {
        self.id
    }
}

impl Keyed for MessageView {
    open spec fn key(&self) -> Seq<char> {
        self.id
    }
}

/// A copy of an optional text that spells the same.
pub fn copy_text(t: &Option<String>) -> (r: Option<String>)
    ensures
        text_view(r) == text_view(*t),
{
    match t {
        Some(s) => Some(s.clone()),
        None => None,
    }
}

/// A copy of a list of texts, each spelling the same.
pub fn copy_texts(v: &Vec<String>) -> (r: Vec<String>)
    ensures
        r.deep_view() == v.deep_view(),
{
    let mut out: Vec<String> = Vec::new();
    let mut i: usize = 0;
    while i < v.len()
        invariant
            i <= v.len(),
            out.len() == i,
            forall|j: int| 0 <= j < i ==> out[j]@ == v[j]@,
        decreases v.len() - i,
    {
        out.push(v[i].clone());
        i += 1;
    }
    assert(out.deep_view() =~= v.deep_view());
    out
}

impl Label {
    /// A copy with the same view.
    pub fn duplicate(&self) -> (r: Label)
        ensures
            r@ == self@,
    {
        Label {
            id: self.id.clone(),
            name: self.name.clone(),
            label_type: self.label_type.clone(),
            color_foreground: copy_text(&self.color_foreground),
            color_background: copy_text(&self.color_background),
            display_name: self.display_name.clone(),
        }
    }
}

impl Message {
    /// A copy with the same view.
    pub fn duplicate(&self) -> (r: Message)
        ensures
            r@ == self@,
    {
        Message {
            id: self.id.clone(),
            thread_id: self.thread_id.clone(),
            snippet: copy_text(&self.snippet),
            from_address: copy_text(&self.from_address),
            to_address: copy_text(&self.to_address),
            subject: copy_text(&self.subject),
            internal_date: self.internal_date,
            body_plain: copy_text(&self.body_plain),
            body_html: copy_text(&self.body_html),
            is_read: self.is_read,
        }
    }
}

/// A copy of a list of messages, each with the same view.
pub fn copy_messages(v: &Vec<Message>) -> (r: Vec<Message>)
    ensures
        r.deep_view() == v.deep_view(),
{
    let mut out: Vec<Message> = Vec::new();
    let mut i: usize = 0;
    while i < v.len()
        invariant
            i <= v.len(),
            out.len() == i,
            forall|j: int| 0 <= j < i ==> out[j]@ == v[j]@,
        decreases v.len() - i,
    {
        out.push(v[i].duplicate());
        i += 1;
    }
    assert(out.deep_view() =~= v.deep_view());
    out
}

} // verus!
