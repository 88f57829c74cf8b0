//! The view of a parsed RFC822 message that the rest of the library reads.
//! Parsing MIME (transfer encodings, charsets such as ISO-2022-JP and
//! Shift_JIS, multipart structure) is done by the `mail-parser` crate; each
//! item below reads one field of its result. What a field holds is a function
//! of the raw bytes alone and is named by a `mime_*` spec function.
use vstd::prelude::*;
use mail_parser::{HeaderValue, Message, MessageParser, MimeHeaders};

verus! {

#[verifier::external_type_specification]
#[verifier::external_body]
pub struct ExMessage<'x>(Message<'x>);

/// A parsed message together with the bytes it was parsed from.
pub struct MimeMessage<'x> {
    msg: Message<'x>,
    raw: Ghost<Seq<u8>>,
}

impl<'x> View for MimeMessage<'x> {
    type V = Seq<u8>;

    closed spec fn view(&self) -> Seq<u8> {
        self.raw@
    }
}

/// Whether `mail-parser` accepts the bytes as a message.
pub uninterp spec fn mime_parses(raw: Seq<u8>) -> bool;

/// `Message::message_id`: the Message-ID without its angle brackets.
pub uninterp spec fn mime_message_id(raw: Seq<u8>) -> Option<Seq<char>>;

/// `Message::in_reply_to`: the ids of the `In-Reply-To` header.
pub uninterp spec fn mime_in_reply_to(raw: Seq<u8>) -> Seq<Seq<char>>;

/// `Message::references`: the ids of the `References` header.
pub uninterp spec fn mime_references(raw: Seq<u8>) -> Seq<Seq<char>>;

/// `Message::from` and `Address::first`: display name and address of the
/// first sender.
pub uninterp spec fn mime_from(raw: Seq<u8>) -> Option<(Option<Seq<char>>, Option<Seq<char>>)>;

/// `Message::to` and `Address::iter`: display name and address of each
/// recipient.
pub uninterp spec fn mime_to(raw: Seq<u8>) -> Seq<(Option<Seq<char>>, Option<Seq<char>>)>;

/// `Message::cc` and `Address::iter`.
pub uninterp spec fn mime_cc(raw: Seq<u8>) -> Seq<(Option<Seq<char>>, Option<Seq<char>>)>;

/// `Message::subject`, decoded.
pub uninterp spec fn mime_subject(raw: Seq<u8>) -> Option<Seq<char>>;

/// `Message::date` and `DateTime::to_timestamp`: seconds since the epoch.
pub uninterp spec fn mime_date(raw: Seq<u8>) -> Option<int>;

/// `Message::body_html(0)`.
pub uninterp spec fn mime_body_html(raw: Seq<u8>) -> Option<Seq<char>>;

/// `Message::text_body_count`.
pub uninterp spec fn mime_text_body_count(raw: Seq<u8>) -> nat;

/// `Message::body_text(0)`.
pub uninterp spec fn mime_body_text(raw: Seq<u8>) -> Option<Seq<char>>;

/// `Message::attachment_count`.
pub uninterp spec fn mime_attachment_count(raw: Seq<u8>) -> nat;

/// Whether `Message::attachment(i)` finds a part.
pub uninterp spec fn mime_attachment_exists(raw: Seq<u8>, i: int) -> bool;

/// `MimeHeaders::attachment_name` of attachment `i`.
pub uninterp spec fn mime_attachment_name(raw: Seq<u8>, i: int) -> Option<Seq<char>>;

/// `MimeHeaders::content_type` of attachment `i`: type and optional subtype.
pub uninterp spec fn mime_attachment_type(raw: Seq<u8>, i: int) -> Option<(Seq<char>, Option<Seq<char>>)>;

/// `MessagePart::contents` of attachment `i`.
pub uninterp spec fn mime_attachment_contents(raw: Seq<u8>, i: int) -> Seq<u8>;

/// Calls `MessageParser::default().parse`; `Some` exactly when the crate
/// accepts the bytes.
#[verifier::external_body]
pub(crate) fn parse_mime<'x>(raw: &'x [u8]) -> (r: Option<MimeMessage<'x>>)
    ensures
        r is Some <==> mime_parses(raw@),
        r matches Some(m) ==> m@ == raw@,
{
    match MessageParser::default().parse(raw) {
        Some(msg) => Some(MimeMessage { msg, raw: Ghost(raw@) }),
        None => None,
    }
}

/// Calls `Message::message_id`.
#[verifier::external_body]
pub(crate) fn message_id(m: &MimeMessage) -> (r: Option<String>)
    ensures
        r matches Some(s) ==> mime_message_id(m@) == Some(s@),
        r is None ==> mime_message_id(m@) is None,
{
    m.msg.message_id().map(String::from)
}

/// Calls `Message::in_reply_to`; a text value gives one id, a text list gives
/// its ids, anything else none.
#[verifier::external_body]
pub(crate) fn in_reply_to(m: &MimeMessage) -> (r: Vec<String>)
    ensures
        r@.map_values(|s: String| s@) == mime_in_reply_to(m@),
{
    match m.msg.in_reply_to() {
        HeaderValue::Text(id) => vec![id.to_string()],
        HeaderValue::TextList(ids) => ids.iter().map(|id| id.to_string()).collect(),
        _ => Vec::new(),
    }
}

/// Calls `Message::references`; as for `in_reply_to`.
#[verifier::external_body]
pub(crate) fn references(m: &MimeMessage) -> (r: Vec<String>)
    ensures
        r@.map_values(|s: String| s@) == mime_references(m@),
{
    match m.msg.references() {
        HeaderValue::Text(id) => vec![id.to_string()],
        HeaderValue::TextList(ids) => ids.iter().map(|id| id.to_string()).collect(),
        _ => Vec::new(),
    }
}

pub open spec fn pair_view(p: (Option<String>, Option<String>)) -> (
    Option<Seq<char>>,
    Option<Seq<char>>,
) {
    (
        match p.0 {
            Some(s) => Some(s@),
            None => None,
        },
        match p.1 {
            Some(s) => Some(s@),
            None => None,
        },
    )
}

/// Calls `Message::from` and `Address::first`.
#[verifier::external_body]
pub(crate) fn from_first(m: &MimeMessage) -> (r: Option<(Option<String>, Option<String>)>)
    ensures
        r matches Some(p) ==> mime_from(m@) == Some(pair_view(p)),
        r is None ==> mime_from(m@) is None,
{
    let a = m.msg.from()?.first()?;
    Some((a.name.as_deref().map(String::from), a.address.as_deref().map(String::from)))
}

/// Calls `Message::to` and `Address::iter`.
#[verifier::external_body]
pub(crate) fn to_list(m: &MimeMessage) -> (r: Vec<(Option<String>, Option<String>)>)
    ensures
        r@.map_values(|p: (Option<String>, Option<String>)| pair_view(p)) == mime_to(m@),
{
    match m.msg.to() {
        Some(a) => a.iter().map(|x| (x.name.as_deref().map(String::from), x.address.as_deref().map(String::from))).collect(),
        None => Vec::new(),
    }
}

/// Calls `Message::cc` and `Address::iter`.
#[verifier::external_body]
pub(crate) fn cc_list(m: &MimeMessage) -> (r: Vec<(Option<String>, Option<String>)>)
    ensures
        r@.map_values(|p: (Option<String>, Option<String>)| pair_view(p)) == mime_cc(m@),
{
    match m.msg.cc() {
        Some(a) => a.iter().map(|x| (x.name.as_deref().map(String::from), x.address.as_deref().map(String::from))).collect(),
        None => Vec::new(),
    }
}

/// Calls `Message::subject`.
#[verifier::external_body]
pub(crate) fn subject(m: &MimeMessage) -> (r: Option<String>)
    ensures
        r matches Some(s) ==> mime_subject(m@) == Some(s@),
        r is None ==> mime_subject(m@) is None,
{
    m.msg.subject().map(String::from)
}

/// Calls `Message::date` and `DateTime::to_timestamp`.
#[verifier::external_body]
pub(crate) fn date(m: &MimeMessage) -> (r: Option<i64>)
    ensures
        r matches Some(t) ==> mime_date(m@) == Some(t as int),
        r is None ==> mime_date(m@) is None,
{
    Some(m.msg.date()?.to_timestamp())
}

/// Calls `Message::body_html(0)`.
#[verifier::external_body]
pub(crate) fn body_html(m: &MimeMessage) -> (r: Option<String>)
    ensures
        r matches Some(s) ==> mime_body_html(m@) == Some(s@),
        r is None ==> mime_body_html(m@) is None,
{
    m.msg.body_html(0).map(|c| c.into_owned())
}

/// Calls `Message::text_body_count`.
#[verifier::external_body]
pub(crate) fn text_body_count(m: &MimeMessage) -> (r: usize)
    ensures
        r as nat == mime_text_body_count(m@),
{
    m.msg.text_body_count()
}

/// Calls `Message::body_text(0)`.
#[verifier::external_body]
pub(crate) fn body_text(m: &MimeMessage) -> (r: Option<String>)
    ensures
        r matches Some(s) ==> mime_body_text(m@) == Some(s@),
        r is None ==> mime_body_text(m@) is None,
{
    m.msg.body_text(0).map(|c| c.into_owned())
}

/// Calls `Message::attachment_count`. `Message::attachment(pos)` looks `pos`
/// up in the list that this counts, so no attachment exists at or past it.
#[verifier::external_body]
pub(crate) fn attachment_count(m: &MimeMessage) -> (r: usize)
    ensures
        r as nat == mime_attachment_count(m@),
        forall|i: int| i >= r ==> !#[trigger] mime_attachment_exists(m@, i),
{
    m.msg.attachment_count()
}

/// Calls `Message::attachment(i)`.
#[verifier::external_body]
pub(crate) fn attachment_exists(m: &MimeMessage, i: u32) -> (r: bool)
    ensures
        r == mime_attachment_exists(m@, i as int),
{
    m.msg.attachment(i).is_some()
}

/// Calls `MimeHeaders::attachment_name` on `Message::attachment(i)`.
#[verifier::external_body]
pub(crate) fn attachment_name(m: &MimeMessage, i: u32) -> (r: Option<String>)
    requires
        mime_attachment_exists(m@, i as int),
    ensures
        r matches Some(s) ==> mime_attachment_name(m@, i as int) == Some(s@),
        r is None ==> mime_attachment_name(m@, i as int) is None,
{
    m.msg.attachment(i)?.attachment_name().map(String::from)
}

/// Calls `MimeHeaders::content_type` on `Message::attachment(i)`.
#[verifier::external_body]
pub(crate) fn attachment_type(m: &MimeMessage, i: u32) -> (r: Option<(String, Option<String>)>)
    requires
        mime_attachment_exists(m@, i as int),
    ensures
        r matches Some(p) ==> mime_attachment_type(m@, i as int) == Some(
            (p.0@, match p.1 {
                Some(s) => Some(s@),
                None => None,
            }),
        ),
        r is None ==> mime_attachment_type(m@, i as int) is None,
{
    let ct = m.msg.attachment(i)?.content_type()?;
    Some((ct.c_type.to_string(), ct.c_subtype.as_deref().map(String::from)))
}

/// Calls `MessagePart::contents` on `Message::attachment(i)`.
#[verifier::external_body]
pub(crate) fn attachment_contents(m: &MimeMessage, i: u32) -> (r: Vec<u8>)
    requires
        mime_attachment_exists(m@, i as int),
    ensures
        r@ == mime_attachment_contents(m@, i as int),
{
    match m.msg.attachment(i) {
        Some(p) => p.contents().to_vec(),
        None => Vec::new(),
    }
}

} // verus!
