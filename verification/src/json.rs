//! Redaction of the `token` member of a JSON object.

use serde_json::Value;
use vstd::prelude::*;

use crate::text;

verus! {

/// `serde_json::Map`, the members of a JSON object.
#[verifier::external_type_specification]
#[verifier::external_body]
#[verifier::reject_recursive_types(K)]
#[verifier::reject_recursive_types(V)]
pub struct ExJsonMap<K, V>(serde_json::Map<K, V>);

/// `serde_json::Value`, a JSON value.
#[verifier::external_type_specification]
#[verifier::external_body]
pub struct ExJsonValue(serde_json::Value);

/// The value of a member: the text of a string, or the serialised bytes of any other value.
pub enum Member {
    Text(Seq<char>),
    Other(Seq<u8>),
}

/// The members of a JSON object, by name.
pub type Members = Map<Seq<char>, Member>;

/// The members that a `serde_json::Map` holds.
pub uninterp spec fn members(map: serde_json::Map<String, Value>) -> Members;

/// The members of the JSON object that `serde_json::from_slice` reads from `bytes`, if it reads
/// one.
pub uninterp spec fn object_of(bytes: Seq<u8>) -> Option<Members>;

/// The bytes that `serde_json::to_vec` writes for an object.
pub uninterp spec fn object_bytes(object: Members) -> Seq<u8>;

/// The text of a member, if the object has that member and it is a string.
pub open spec fn text_member(object: Members, name: Seq<char>) -> Option<Seq<char>> {
    if object.contains_key(name) {
        match object[name] {
            Member::Text(text) => Some(text),
            Member::Other(_) => None,
        }
    } else {
        None
    }
}

/// Whether `read` has the member names of `written`, and the same text wherever that has one.
pub open spec fn same_texts(written: Members, read: Members) -> bool {
    &&& written.dom() == read.dom()
    &&& forall|name: Seq<char>|
        #![trigger text_member(written, name)]
        #![trigger text_member(read, name)]
        text_member(written, name) is Some ==> text_member(read, name) == text_member(written, name)
}

/// Whether `read` is what was read as an object from bytes.
pub open spec fn parsed_as(read: Option<serde_json::Map<String, Value>>, object: Option<Members>) -> bool {
    match read {
        Some(map) => object == Some(members(map)),
        None => object is None,
    }
}

/// Whether `bytes`, where they are read as an object, give the names and texts of `object`.
pub open spec fn reads_back(bytes: Seq<u8>, object: Members) -> bool {
    object_of(bytes) matches Some(read) ==> same_texts(object, read)
}

/// `serde_json::from_slice` reads a JSON object. What it reads depends on the bytes alone.
#[verifier::external_body]
fn parse_object(bytes: &[u8]) -> (read: Option<serde_json::Map<String, Value>>)
    ensures
        parsed_as(read, object_of(bytes@)),
{
    match serde_json::from_slice(bytes) {
        Ok(map) => Some(map),
        Err(_) => None,
    }
}

/// `serde_json::Map::get` finds a member. The text of a string is handed out.
#[verifier::external_body]
fn get_text(map: &serde_json::Map<String, Value>, name: &str) -> (found: Option<String>)
    ensures
        text::text_given(found) == text_member(members(*map), name@),
{
    match map.get(name) {
        Some(Value::String(text)) => Some(text.clone()),
        _ => None,
    }
}

/// `serde_json::Map::insert` sets a member, here to a string, and changes no other.
#[verifier::external_body]
fn insert_text(map: &mut serde_json::Map<String, Value>, name: String, value: String)
    ensures
        members(*final(map)) == members(*old(map)).insert(name@, Member::Text(value@)),
{
    map.insert(name, Value::String(value));
}

/// `serde_json::to_vec` writes an object, its members in the order of their names. It fails only
/// on a type whose `Serialize` fails or on names that are not strings, so never on a map of JSON
/// values; and it writes names and strings such that they are read back as they were.
#[verifier::external_body]
fn write_object(map: &serde_json::Map<String, Value>) -> (written: Option<Vec<u8>>)
    ensures
        written is Some,
        written->0@ == object_bytes(members(*map)),
        reads_back(written->0@, members(*map)),
{
    match serde_json::to_vec(map) {
        Ok(bytes) => Some(bytes),
        Err(_) => None,
    }
}

/// A token as it may be shown: its first three characters and three dots, or the dots alone
/// where the token has no more than three characters.
pub open spec fn redacted(token: Seq<char>) -> Seq<char> {
    if token.len() > 3 {
        token.take(3) + "..."@
    } else {
        "..."@
    }
}

/// An object with its token redacted, if it has one.
pub open spec fn redacted_object(object: Members) -> Members {
    match text_member(object, "token"@) {
        Some(token) => object.insert("token"@, Member::Text(redacted(token))),
        None => object,
    }
}

/// A body with its token redacted: a JSON object is written anew, anything else stays as it is.
pub open spec fn redacted_body(body: Seq<u8>) -> Seq<u8> {
    match object_of(body) {
        Some(object) => object_bytes(redacted_object(object)),
        None => body,
    }
}

/// Redacts a token, keeping only its first three characters.
pub fn redact_token(token: &str) -> (shown: String)
    ensures
        shown@ == redacted(token@),
{
    let chars: Vec<char> = text::chars_of(token);
    if chars.len() > 3 {
        let head = text::text_of(vstd::slice::slice_subrange(chars.as_slice(), 0, 3));
        assert(head@ =~= token@.take(3));
        text::joined(head.as_str(), "...")
    } else {
        "...".to_owned()
    }
}

/// Redacts the token of an object, if it has one.
pub fn redact_object(map: &mut serde_json::Map<String, Value>)
    ensures
        members(*final(map)) == redacted_object(members(*old(map))),
{
    match get_text(map, "token") {
        Some(token) => {
            let shown = redact_token(token.as_str());
            insert_text(map, "token".to_owned(), shown);
        },
        None => {},
    }
}

/// Redacts the "token" field of a JSON body, keeping only its first three characters.
pub fn redact_token_field(body: Vec<u8>) -> (shown: Vec<u8>)
    ensures
        shown@ == redacted_body(body@),
        object_of(body@) matches Some(object) ==> reads_back(shown@, redacted_object(object)),
{
    match parse_object(body.as_slice()) {
        Some(mut map) => {
            redact_object(&mut map);
            match write_object(&map) {
                Some(bytes) => bytes,
                None => body,
            }
        },
        None => body,
    }
}

/// A redacted token tells at most its first three characters: tokens of more than three
/// characters that start alike look alike, and so do all shorter tokens.
pub proof fn law_redaction_hides(token: Seq<char>, other: Seq<char>)
    requires
        (token.len() <= 3 && other.len() <= 3) || (token.len() > 3 && other.len() > 3
            && token.take(3) == other.take(3)),
    ensures
        redacted(token) == redacted(other),
{
}

/// Redacting twice is redacting once.
pub proof fn law_redaction_is_idempotent(token: Seq<char>, object: Members)
    ensures
        redacted(redacted(token)) == redacted(token),
        redacted_object(redacted_object(object)) == redacted_object(object),
{
    reveal_strlit("...");
    assert(redacted(redacted(token)) =~= redacted(token));
    match text_member(object, "token"@) {
        Some(text) => {
            assert(redacted(text).take(3) + "..."@ =~= redacted(text) || redacted(text)
                == "..."@);
            assert(redacted(redacted(text)) =~= redacted(text));
            assert(redacted_object(redacted_object(object)) =~= redacted_object(object));
        },
        None => {},
    }
}

/// Redaction adds and takes away no member, and changes none but the token.
pub proof fn law_redaction_keeps_other_members(object: Members, name: Seq<char>)
    ensures
        redacted_object(object).dom() == object.dom(),
        name != "token"@ && object.contains_key(name) ==> redacted_object(object)[name]
            == object[name],
        object.contains_key("token"@) && object["token"@] is Other ==> redacted_object(object)["token"@]
            == object["token"@],
        text_member(redacted_object(object), "token"@) == match text_member(object, "token"@) {
            Some(token) => Some(redacted(token)),
            None => None,
        },
{
    assert(redacted_object(object).dom() =~= object.dom());
}

/// A redacted token is its first three characters, where it has more, and three dots.
pub proof fn law_redaction_shows_the_start(token: Seq<char>)
    ensures
        redacted(token).len() == if token.len() > 3 {
            6int
        } else {
            3
        },
        token.len() > 3 ==> redacted(token)[0] == token[0] && redacted(token)[1] == token[1]
            && redacted(token)[2] == token[2],
        forall|i: int|
            redacted(token).len() - 3 <= i < redacted(token).len() ==> #[trigger] redacted(token)[i]
                == '.',
{
    reveal_strlit("...");
}

/// Of a body that is a JSON object, an object with the same names is written: its token, if that is
/// a string, is redacted, and every other member is as it was. Any other body stays as it is.
pub proof fn law_redacted_body_is_the_object_with_its_token_redacted(body: Seq<u8>) -> (shown:
    Members)
    ensures
        object_of(body) is None ==> redacted_body(body) == body,
        object_of(body) matches Some(object) ==> {
            &&& redacted_body(body) == object_bytes(shown)
            &&& shown.dom() == object.dom()
            &&& forall|name: Seq<char>|
                name != "token"@ && #[trigger] object.contains_key(name) ==> shown[name]
                    == object[name]
            &&& object.contains_key("token"@) ==> match object["token"@] {
                Member::Text(token) => shown["token"@] == Member::Text(redacted(token)),
                Member::Other(value) => shown["token"@] == Member::Other(value),
            }
        },
{
    match object_of(body) {
        Some(object) => {
            assert(redacted_object(object).dom() =~= object.dom());
            redacted_object(object)
        },
        None => Map::empty(),
    }
}

} // verus!
