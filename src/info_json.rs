use vstd::prelude::*;

verus! {

#[verifier::external_type_specification]
#[verifier::external_body]
pub struct ExValue(serde_json::Value);

#[verifier::external_type_specification]
#[verifier::external_body]
pub struct ExError(serde_json::Error);

/// Whether serde_json reads the bytes as exactly one JSON value, with nothing
/// but whitespace around it (within its grammar and its nesting limit).
pub uninterp spec fn parses_as_json(b: Seq<u8>) -> bool;

/// The text of the member named `key` of the JSON object that serde_json reads
/// from the bytes: `None` where that member is missing or is not a string.
pub uninterp spec fn text_member(b: Seq<u8>, key: Seq<char>) -> Option<Seq<char>>;

/// Relies on serde_json::from_slice into a `Value`, then `Value::get` with a
/// string key and `Value::as_str`: whether the parse succeeds, and the text of
/// the member, depend on the bytes and the key alone.
#[verifier::external_body]
fn parse_document(bytes: &[u8], key: &str) -> (r: Result<
    (serde_json::Value, Option<String>),
    serde_json::Error,
>)
    ensures
        r is Ok <==> parses_as_json(bytes@),
        r matches Ok((_, t)) ==> (t is Some <==> text_member(bytes@, key@) is Some),
        r matches Ok((_, Some(t))) ==> text_member(bytes@, key@) == Some(t@),
{
    let document = serde_json::from_slice::<serde_json::Value>(bytes)?;
    let text = document.get(key).and_then(serde_json::Value::as_str).map(str::to_owned);
    Ok((document, text))
}

/// The title that a sidecar's bytes give.
pub open spec fn title_of(b: Seq<u8>) -> Option<Seq<char>> {
    text_member(b, "title"@)
}

/// The metadata that youtube-dl writes next to a video: its title, and the
/// whole document, whose other fields this library does not interpret.
#[derive(Debug)]
pub struct InfoJson {
    pub title: String,
    pub document: serde_json::Value,
}

/// Why the bytes of a sidecar do not make an [`InfoJson`].
#[derive(Debug)]
pub enum InfoJsonError {
    /// The bytes are not a JSON document that serde_json reads.
    Json(serde_json::Error),
    /// The document has no `title` member that is a string.
    MissingTitle,
}

impl InfoJson {
    /// Parses the bytes of a sidecar. A document that serde_json does not read
    /// is refused with `Json`; one without a textual `title` with
    /// `MissingTitle`.
    pub fn from_bytes(bytes: &[u8]) -> (r: Result<InfoJson, InfoJsonError>)
        ensures
            r is Ok <==> parses_as_json(bytes@) && title_of(bytes@) is Some,
            r matches Ok(info) ==> title_of(bytes@) == Some(info.title@),
            r matches Err(InfoJsonError::Json(_)) <==> !parses_as_json(bytes@),
            r matches Err(InfoJsonError::MissingTitle) <==> parses_as_json(bytes@) && title_of(
                bytes@,
            ) is None,
    {
        match parse_document(bytes, "title") {
            Err(e) => Err(InfoJsonError::Json(e)),
            Ok((_, None)) => Err(InfoJsonError::MissingTitle),
            Ok((document, Some(title))) => Ok(InfoJson { title, document }),
        }
    }
}

} // verus!
