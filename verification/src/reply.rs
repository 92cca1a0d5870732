//! The HTTP replies the server sends, as plain values.
use vstd::prelude::*;
use vstd::string::*;

verus! {

/// The body of a reply.
#[derive(Debug)]
pub enum Body {
    /// No body.
    Empty,
    /// A text body.
    Text(String),
    /// A byte body.
    Bytes(Vec<u8>),
    /// The whole requested file, streamed from disk.
    File,
}

/// A reply: status code, headers (name, value) in order, and body.
#[derive(Debug)]
pub struct Reply {
    pub status: u16,
    pub headers: Vec<(String, String)>,
    pub body: Body,
}

/// A body as a value.
pub enum BodyView {
    Empty,
    Text(Seq<char>),
    Bytes(Seq<u8>),
    File,
}

/// A reply as a value.
pub struct ReplyView {
    pub status: u16,
    pub headers: Seq<(Seq<char>, Seq<char>)>,
    pub body: BodyView,
}

/// The texts of a list of header pairs.
pub open spec fn header_views(h: Seq<(String, String)>) -> Seq<(Seq<char>, Seq<char>)> {
    Seq::new(h.len(), |i: int| (h[i].0@, h[i].1@))
}

impl View for Body {
    type V = BodyView;

    open spec fn view(&self) -> BodyView {
        match self {
            Body::Empty => BodyView::Empty,
            Body::Text(t) => BodyView::Text(t@),
            Body::Bytes(b) => BodyView::Bytes(b@),
            Body::File => BodyView::File,
        }
    }
}

impl View for Reply {
    type V = ReplyView;

    open spec fn view(&self) -> ReplyView {
        ReplyView { status: self.status, headers: header_views(self.headers@), body: self.body@ }
    }
}

/// A reply with a status and a text body, and no headers of its own.
pub open spec fn text_reply(status: u16, text: Seq<char>) -> ReplyView {
    ReplyView { status, headers: seq![], body: BodyView::Text(text) }
}

/// A reply with a status only.
pub open spec fn status_reply(status: u16) -> ReplyView {
    ReplyView { status, headers: seq![], body: BodyView::Empty }
}

/// Builds [`text_reply`].
pub fn make_text_reply(status: u16, text: String) -> (r: Reply)
    ensures
        r@ == text_reply(status, text@),
{
    let r = Reply { status, headers: Vec::new(), body: Body::Text(text) };
    assert(r@.headers =~= Seq::<(Seq<char>, Seq<char>)>::empty());
    r
}

/// Builds [`text_reply`] from a literal.
pub fn make_message_reply(status: u16, text: &str) -> (r: Reply)
    ensures
        r@ == text_reply(status, text@),
{
    make_text_reply(status, String::from_str(text))
}

/// Builds [`status_reply`].
pub fn make_status_reply(status: u16) -> (r: Reply)
    ensures
        r@ == status_reply(status),
{
    let r = Reply { status, headers: Vec::new(), body: Body::Empty };
    assert(r@.headers =~= Seq::<(Seq<char>, Seq<char>)>::empty());
    r
}

/// Appends a header to a list of headers.
pub fn push_header(h: &mut Vec<(String, String)>, name: &str, value: String)
    ensures
        header_views(final(h)@) == header_views(old(h)@).push((name@, value@)),
{
    let n = String::from_str(name);
    h.push((n, value));
    assert(header_views(final(h)@) =~= header_views(old(h)@).push((name@, value@)));
}

} // verus!
