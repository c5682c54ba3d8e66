//! Replies, status codes and header values.

use vstd::prelude::*;

use crate::text;

verus! {

/// A reply to a client.
pub struct Reply {
    pub status: u16,
    pub content_type: Option<String>,
    pub retry_after: Option<String>,
    pub body: Vec<u8>,
}

/// What a [`Reply`] holds.
pub struct ReplyView {
    pub status: u16,
    pub content_type: Option<Seq<char>>,
    pub retry_after: Option<Seq<char>>,
    pub body: Seq<u8>,
}

impl View for Reply {
    type V = ReplyView;

    open spec fn view(&self) -> ReplyView {
        ReplyView {
            status: self.status,
            content_type: text::text_given(self.content_type),
            retry_after: text::text_given(self.retry_after),
            body: self.body@,
        }
    }
}

/// Whether `status` can stand as a status code.
pub open spec fn status_code(status: u16) -> bool {
    100 <= status <= 999
}

/// Whether a text can stand as the value of a header: no control characters but the tab.
pub open spec fn header_value(text: Seq<char>) -> bool {
    forall|i: int|
        0 <= i < text.len() ==> (#[trigger] text[i] == '\t' || (32 <= text[i] as u32 && text[i] as u32
            != 127))
}

/// `http::StatusCode::from_u16` accepts the codes from 100 to 999 and rejects all others.
#[verifier::external_body]
fn checked_status(status: u16) -> (code: Option<u16>)
    ensures
        code == if status_code(status) { Some(status) } else { None },
{
    match axum::http::StatusCode::from_u16(status) {
        Ok(code) => Some(code.as_u16()),
        Err(_) => None,
    }
}

/// `http::HeaderValue::from_str` accepts a text exactly if none of its bytes is below 32 or equal
/// to 127, but for the tab. The bytes of a character beyond ASCII are all above 127.
#[verifier::external_body]
fn is_header_value(text: &str) -> (yes: bool)
    ensures
        yes == header_value(text@),
{
    axum::http::HeaderValue::from_str(text).is_ok()
}

/// Whether `status` means success.
pub open spec fn success(status: u16) -> bool {
    200 <= status <= 299
}

/// Whether `status` means success.
pub fn is_success(status: u16) -> (yes: bool)
    ensures
        yes == success(status),
{
    200 <= status && status <= 299
}

/// Whether `status` means that the key was refused: rate limited or not authorised.
pub open spec fn refused(status: u16) -> bool {
    status == 429 || status == 401
}

/// Whether `status` means that the key was refused.
pub fn is_refused(status: u16) -> (yes: bool)
    ensures
        yes == refused(status),
{
    status == 429 || status == 401
}

/// Whether a byte of a header is a visible ASCII character, a space or a tab.
pub open spec fn visible(byte: u8) -> bool {
    32 <= byte < 127 || byte == 9
}

/// The text of a header, if all its bytes are visible.
pub open spec fn visible_text(bytes: Seq<u8>) -> Option<Seq<char>> {
    if forall|i: int| 0 <= i < bytes.len() ==> visible(#[trigger] bytes[i]) {
        Some(Seq::new(bytes.len(), |i: int| bytes[i] as char))
    } else {
        None
    }
}

/// The text of a header that may be missing.
pub open spec fn header_text(header: Option<Vec<u8>>) -> Option<Seq<char>> {
    match header {
        Some(bytes) => visible_text(bytes@),
        None => None,
    }
}

/// Reads the text of a header. `None` where the header is missing or has a byte that is not
/// visible.
pub fn read_header(header: &Option<Vec<u8>>) -> (found: Option<String>)
    ensures
        text::text_given(found) == header_text(*header),
{
    match header {
        Some(bytes) => {
            let mut s = String::new();
            let mut i: usize = 0;
            while i < bytes.len()
                invariant
                    *header == Some(*bytes),
                    i <= bytes.len(),
                    forall|j: int| 0 <= j < i ==> visible(#[trigger] bytes@[j]),
                    s@ =~= Seq::new(i as nat, |j: int| bytes@[j] as char),
                decreases bytes.len() - i,
            {
                let byte: u8 = bytes[i];
                if !((32 <= byte && byte < 127) || byte == 9) {
                    return None;
                }
                s.push(byte as char);
                i += 1;
            }
            Some(s)
        },
        None => None,
    }
}

/// A reply with a content type. A status that is no status code is answered as an internal
/// error, and a content type that cannot stand in a header is left out.
pub open spec fn response(status: u16, content_type: Seq<char>, body: Seq<u8>) -> ReplyView {
    ReplyView {
        status: if status_code(status) {
            status
        } else {
            500
        },
        content_type: if header_value(content_type) {
            Some(content_type)
        } else {
            None
        },
        retry_after: None,
        body,
    }
}

/// Builds a reply with a content type.
pub fn build_response(status: u16, content_type: &str, body: Vec<u8>) -> (reply: Reply)
    ensures
        reply@ == response(status, content_type@, body@),
{
    let status: u16 = match checked_status(status) {
        Some(code) => code,
        None => 500,
    };
    let content_type: Option<String> = if is_header_value(content_type) {
        Some(content_type.to_owned())
    } else {
        None
    };
    Reply { status, content_type, retry_after: None, body }
}

/// A reply with a plain text.
pub open spec fn text_response(status: u16, text: Seq<char>) -> ReplyView {
    ReplyView {
        status,
        content_type: Some("text/plain; charset=utf-8"@),
        retry_after: None,
        body: vstd::utf8::encode_utf8(text),
    }
}

/// Builds a reply with a plain text.
pub fn build_text_response(status: u16, text: &str) -> (reply: Reply)
    ensures
        reply@ == text_response(status, text@),
{
    Reply {
        status,
        content_type: Some("text/plain; charset=utf-8".to_owned()),
        retry_after: None,
        body: text.as_bytes_vec(),
    }
}

/// A reply with a plain text that asks the client to come back after some seconds.
pub open spec fn retry_response(status: u16, text: Seq<char>, seconds: u64) -> ReplyView {
    ReplyView {
        retry_after: Some(text::numeral(seconds as nat)),
        ..text_response(status, text)
    }
}

/// Builds a reply with a plain text that asks the client to come back after some seconds.
pub fn build_retry_response(status: u16, text: &str, seconds: u64) -> (reply: Reply)
    ensures
        reply@ == retry_response(status, text@, seconds),
{
    let mut reply = build_text_response(status, text);
    let retry_after = text::decimal(seconds);
    proof {
        text::lemma_numeral_digits(seconds as nat);
    }
    if is_header_value(retry_after.as_str()) {
        reply.retry_after = Some(retry_after);
    }
    reply
}

/// A reply with nothing but a status.
pub open spec fn bare_response(status: u16) -> ReplyView {
    ReplyView { status, content_type: None, retry_after: None, body: Seq::empty() }
}

/// Builds a reply with nothing but a status.
pub fn build_bare_response(status: u16) -> (reply: Reply)
    ensures
        reply@ == bare_response(status),
{
    Reply { status, content_type: None, retry_after: None, body: Vec::new() }
}

/// What a reply holds are its fields.
pub proof fn law_reply_holds_its_fields(reply: Reply)
    ensures
        reply@.status == reply.status,
        reply@.body == reply.body@,
        reply.content_type matches Some(content_type) ==> reply@.content_type == Some(
            content_type@,
        ),
        reply.content_type is None ==> reply@.content_type is None,
        reply.retry_after matches Some(retry_after) ==> reply@.retry_after == Some(retry_after@),
        reply.retry_after is None ==> reply@.retry_after is None,
{
}

/// A status means success from 200 on and below 300, and a refused key is told by 401 and by 429,
/// by no other.
pub proof fn law_status_classes(status: u16)
    ensures
        success(status) <==> 200 <= status < 300,
        refused(status) <==> status == 401 || status == 429,
{
}

/// A header has a text exactly if all its bytes are printable ASCII, spaces or tabs, and the text
/// has one character for each byte, with the same code.
pub proof fn law_header_text_is_its_bytes(header: Option<Vec<u8>>)
    ensures
        header is None ==> header_text(header) is None,
        header matches Some(bytes) ==> (header_text(header) is Some <==> forall|i: int|
            0 <= i < bytes@.len() ==> #[trigger] bytes@[i] == 9 || 32 <= bytes@[i] <= 126),
        header matches Some(bytes) ==> header_text(header) matches Some(text) ==> text.len()
            == bytes@.len() && forall|i: int|
            0 <= i < bytes@.len() ==> #[trigger] text[i] as int == bytes@[i],
{
    if let Some(bytes) = header {
        if forall|i: int|
            0 <= i < bytes@.len() ==> #[trigger] bytes@[i] == 9 || 32 <= bytes@[i] <= 126 {
            assert(forall|i: int| 0 <= i < bytes@.len() ==> visible(#[trigger] bytes@[i]));
        }
        if header_text(header) is Some {
            assert(forall|i: int| 0 <= i < bytes@.len() ==> visible(#[trigger] bytes@[i]));
        }
    }
}

/// A reply passes on status, content type and body, whatever they are; only a number that is no
/// status becomes an internal error, and a content type that is no header value is left out.
pub proof fn law_response_passes_on(status: u16, content_type: Seq<char>, body: Seq<u8>)
    ensures
        100 <= status <= 999 ==> response(status, content_type, body).status == status,
        status < 100 || status > 999 ==> response(status, content_type, body).status == 500,
        header_value(content_type) ==> response(status, content_type, body).content_type == Some(
            content_type,
        ),
        !header_value(content_type) ==> response(status, content_type, body).content_type is None,
        response(status, content_type, body).retry_after is None,
        response(status, content_type, body).body == body,
{
}

/// A text reply holds its status and the bytes of its text, one that asks to come back also the
/// seconds in decimal, and a bare reply nothing but its status.
pub proof fn law_fixed_replies(status: u16, text: Seq<char>, seconds: u64)
    ensures
        text_response(status, text).status == status,
        text_response(status, text).body == vstd::utf8::encode_utf8(text),
        text_response(status, text).content_type == Some("text/plain; charset=utf-8"@),
        text_response(status, text).retry_after is None,
        retry_response(status, text, seconds).status == status,
        retry_response(status, text, seconds).body == vstd::utf8::encode_utf8(text),
        retry_response(status, text, seconds).content_type == Some("text/plain; charset=utf-8"@),
        retry_response(status, text, seconds).retry_after == Some(text::numeral(seconds as nat)),
        bare_response(status).status == status,
        bare_response(status).body.len() == 0,
        bare_response(status).content_type is None,
        bare_response(status).retry_after is None,
{
}

} // verus!
