//! Wire codec: the record, its layout as JSON text, and the delimiter that
//! ends each record on the stream.
//!
//! A record is the JSON object `{"event":<string>,"data":<string>}`. The
//! layout of the object is fixed here; the JSON text of each string, and the
//! reading of an object back into its members, are `serde_json`'s.

use serde_json::Value;
use vstd::prelude::*;

verus! {

/// The byte that ends every record on the stream (ASCII End of Transmission).
pub const DELIMITER: u8 = 0x04;

/// The one record ever placed on the wire.
#[derive(Clone, Debug, PartialEq, Eq)]
pub struct Packet {
    pub event: String,
    pub data: String,
}

/// The mathematical value of a [`Packet`].
pub struct PacketView {
    pub event: Seq<char>,
    pub data: Seq<char>,
}

impl View for Packet {
    type V = PacketView;

    open spec fn view(&self) -> PacketView {
        PacketView { event: self.event@, data: self.data@ }
    }
}

/// One member of a JSON object: its name, and its text where the value is a
/// JSON string (`None` for a value of any other kind).
#[derive(Clone, Debug, PartialEq, Eq)]
pub struct Field {
    pub name: String,
    pub text: Option<String>,
}

/// Why a record could not be written or read.
#[derive(Clone, Copy, Debug, PartialEq, Eq, Structural)]
pub enum CodecError {
    /// The JSON encoder reported an error for one of the strings.
    Encoder,
    /// The JSON text of one of the strings holds the delimiter byte.
    DelimiterInRecord,
    /// The bytes are not one JSON object.
    Malformed,
    /// The object lacks `event` or `data`, or one of them is not a string.
    Schema,
}

/// `serde_json::Error`, carried from the encoder and the parser to the
/// place where it becomes a [`CodecError`]. Nothing is read from it.
#[verifier::external_type_specification]
#[verifier::external_body]
pub struct ExJsonError(serde_json::Error);

/// The JSON text that `serde_json::to_vec` writes for the string `s` (its
/// quoted, escaped literal), or `None` where the encoder reports an error.
pub uninterp spec fn json_string_text(s: Seq<char>) -> Option<Seq<u8>>;

/// The members that `serde_json::from_slice` reads from `text` as a JSON
/// object, in the order in which its map hands them out, each as its name
/// and the text of its value where that is a string; `None` where `text` is
/// not exactly one JSON object.
pub uninterp spec fn json_object_fields(text: Seq<u8>) -> Option<Seq<(Seq<char>, Option<Seq<char>>)>>;

/// The view of an optional string.
pub open spec fn text_view(text: Option<String>) -> Option<Seq<char>> {
    match text {
        Some(t) => Some(t@),
        None => None,
    }
}

/// The views of a list of fields, in order.
pub open spec fn fields_view(fields: Seq<Field>) -> Seq<(Seq<char>, Option<Seq<char>>)> {
    Seq::new(fields.len(), |k: int| (fields[k].name@, text_view(fields[k].text)))
}

/// Calls `serde_json::to_vec` on a string. Nothing is proved of the encoder:
/// the contract only names what it returns.
#[verifier::external_body]
fn json_string(s: &str) -> (r: Result<Vec<u8>, serde_json::Error>)
    ensures
        r is Ok <==> json_string_text(s@) is Some,
        r matches Ok(text) ==> json_string_text(s@) == Some(text@),
{
    serde_json::to_vec(s)
}

/// Calls `serde_json::from_slice` for a `serde_json::Map` and hands each
/// member out as a [`Field`]. Nothing is proved of the parser: the contract
/// only names what it returns.
#[verifier::external_body]
fn json_object(text: &[u8]) -> (r: Result<Vec<Field>, serde_json::Error>)
    ensures
        r is Ok <==> json_object_fields(text@) is Some,
        r matches Ok(fields) ==> json_object_fields(text@) == Some(fields_view(fields@)),
{
    let object: serde_json::Map<String, Value> = serde_json::from_slice(text)?;
    Ok(object.into_iter().map(|(name, value)| match value {
        Value::String(text) => Field { name, text: Some(text) },
        Value::Null => Field { name, text: None },
        Value::Bool(_) => Field { name, text: None },
        Value::Number(_) => Field { name, text: None },
        Value::Array(_) => Field { name, text: None },
        Value::Object(_) => Field { name, text: None },
    }).collect())
}

/// True when `bytes` holds no delimiter byte.
pub open spec fn delimiter_free(bytes: Seq<u8>) -> bool {
    forall|i: int| 0 <= i < bytes.len() ==> bytes[i] != DELIMITER
}

/// `{"event":`
pub open spec fn record_head() -> Seq<u8> {
    seq![0x7Bu8, 0x22u8, 0x65u8, 0x76u8, 0x65u8, 0x6Eu8, 0x74u8, 0x22u8, 0x3Au8]
}

/// `,"data":`
pub open spec fn record_middle() -> Seq<u8> {
    seq![0x2Cu8, 0x22u8, 0x64u8, 0x61u8, 0x74u8, 0x61u8, 0x22u8, 0x3Au8]
}

/// `}`
pub open spec fn record_tail() -> Seq<u8> {
    seq![0x7Du8]
}

/// The compact JSON object with the members `event` and `data`, in that
/// order, given the JSON text of each value.
pub open spec fn record_text(event_text: Seq<u8>, data_text: Seq<u8>) -> Seq<u8> {
    record_head() + event_text + record_middle() + data_text + record_tail()
}

/// What [`frame_record`] returns: the record and its delimiter, unless a
/// value's text holds the delimiter byte.
pub open spec fn framed(event_text: Seq<u8>, data_text: Seq<u8>) -> Result<Seq<u8>, CodecError> {
    if delimiter_free(event_text) && delimiter_free(data_text) {
        Ok(record_text(event_text, data_text) + seq![DELIMITER])
    } else {
        Err(CodecError::DelimiterInRecord)
    }
}

/// What [`encode`] returns, given what the JSON encoder made of each string.
pub open spec fn encoded(event_text: Option<Seq<u8>>, data_text: Option<Seq<u8>>) -> Result<
    Seq<u8>,
    CodecError,
> {
    match (event_text, data_text) {
        (Some(e), Some(d)) => framed(e, d),
        _ => Err(CodecError::Encoder),
    }
}

/// The view of an outcome that carries bytes.
pub open spec fn bytes_outcome(r: Result<Vec<u8>, CodecError>) -> Result<Seq<u8>, CodecError> {
    match r {
        Ok(bytes) => Ok(bytes@),
        Err(e) => Err(e),
    }
}

/// A frame holds exactly one delimiter byte, its last: the record before it
/// is free of the delimiter.
pub proof fn lemma_frame_ends_record(event_text: Seq<u8>, data_text: Seq<u8>)
    requires
        framed(event_text, data_text) is Ok,
    ensures
        delimiter_free(record_text(event_text, data_text)),
        framed(event_text, data_text) == Ok::<Seq<u8>, CodecError>(
            record_text(event_text, data_text) + seq![DELIMITER],
        ),
{
    let record = record_text(event_text, data_text);
    let a = record_head().len();
    let b = a + event_text.len();
    let c = b + record_middle().len();
    let d = c + data_text.len();
    assert forall|i: int| 0 <= i < record.len() implies record[i] != DELIMITER by {
        if i < a {
            assert(record[i] == record_head()[i]);
        } else if i < b {
            assert(record[i] == event_text[i - a]);
        } else if i < c {
            assert(record[i] == record_middle()[i - b]);
        } else if i < d {
            assert(record[i] == data_text[i - c]);
        } else {
            assert(record[i] == record_tail()[i - d]);
        }
    }
}

/// True when `bytes` holds at least one delimiter byte.
pub fn has_delimiter(bytes: &[u8]) -> (found: bool)
    ensures
        found == !delimiter_free(bytes@),
{
    let mut i: usize = 0;
    while i < bytes.len()
        invariant
            i <= bytes.len(),
            forall|j: int| 0 <= j < i ==> bytes@[j] != DELIMITER,
        decreases bytes.len() - i,
    {
        if bytes[i] == DELIMITER {
            return true;
        }
        i += 1;
    }
    false
}

/// Appends `src` to `out`.
fn append_bytes(out: &mut Vec<u8>, src: &[u8])
    ensures
        final(out)@ == old(out)@ + src@,
{
    let ghost before = out@;
    let mut i: usize = 0;
    while i < src.len()
        invariant
            i <= src.len(),
            out@ == before + src@.subrange(0, i as int),
        decreases src.len() - i,
    {
        out.push(src[i]);
        i += 1;
        assert(out@ =~= before + src@.subrange(0, i as int));
    }
    assert(src@.subrange(0, src@.len() as int) =~= src@);
}

/// Lays out one record from the JSON text of its two values and ends it with
/// the delimiter. A value whose text holds the delimiter byte is rejected, so
/// the delimiter of a frame is always its last byte and its only one.
pub fn frame_record(event_text: &[u8], data_text: &[u8]) -> (r: Result<Vec<u8>, CodecError>)
    ensures
        bytes_outcome(r) == framed(event_text@, data_text@),
{
    if has_delimiter(event_text) || has_delimiter(data_text) {
        return Err(CodecError::DelimiterInRecord);
    }
    let mut out: Vec<u8> = vec![0x7Bu8, 0x22u8, 0x65u8, 0x76u8, 0x65u8, 0x6Eu8, 0x74u8, 0x22u8, 0x3Au8];
    assert(out@ =~= record_head());
    append_bytes(&mut out, event_text);
    let middle: Vec<u8> = vec![0x2Cu8, 0x22u8, 0x64u8, 0x61u8, 0x74u8, 0x61u8, 0x22u8, 0x3Au8];
    assert(middle@ =~= record_middle());
    append_bytes(&mut out, middle.as_slice());
    append_bytes(&mut out, data_text);
    out.push(0x7Du8);
    out.push(DELIMITER);
    assert(out@ =~= record_text(event_text@, data_text@) + seq![DELIMITER]);
    Ok(out)
}

/// Encodes a packet as one frame: the record's JSON text, then the delimiter.
///
/// Fails with [`CodecError::Encoder`] exactly when the JSON encoder reports an
/// error for `event` or `data`, and with [`CodecError::DelimiterInRecord`]
/// exactly when it does not but the text it wrote holds the delimiter byte.
pub fn encode(packet: &Packet) -> (r: Result<Vec<u8>, CodecError>)
    ensures
        bytes_outcome(r) == encoded(
            json_string_text(packet.event@),
            json_string_text(packet.data@),
        ),
{
    let event_text = match json_string(packet.event.as_str()) {
        Ok(text) => text,
        Err(_) => {
            return Err(CodecError::Encoder);
        },
    };
    let data_text = match json_string(packet.data.as_str()) {
        Ok(text) => text,
        Err(_) => {
            return Err(CodecError::Encoder);
        },
    };
    frame_record(event_text.as_slice(), data_text.as_slice())
}

/// The text of the first member called `name`, where that member is a
/// string; `None` where no member has that name or the first one is not a
/// string.
pub open spec fn field_text(fields: Seq<(Seq<char>, Option<Seq<char>>)>, name: Seq<char>) -> Option<
    Seq<char>,
>
    decreases fields.len(),
{
    if fields.len() == 0 {
        None
    } else if fields[0].0 == name {
        fields[0].1
    } else {
        field_text(fields.subrange(1, fields.len() as int), name)
    }
}

/// The packet that an object's members describe, if they describe one.
pub open spec fn packet_of(fields: Seq<(Seq<char>, Option<Seq<char>>)>) -> Result<
    PacketView,
    CodecError,
> {
    match (field_text(fields, "event"@), field_text(fields, "data"@)) {
        (Some(event), Some(data)) => Ok(PacketView { event, data }),
        _ => Err(CodecError::Schema),
    }
}

/// What [`decode`] returns, given what the JSON parser made of the bytes.
pub open spec fn decoded(fields: Option<Seq<(Seq<char>, Option<Seq<char>>)>>) -> Result<
    PacketView,
    CodecError,
> {
    match fields {
        Some(fields) => packet_of(fields),
        None => Err(CodecError::Malformed),
    }
}

/// The view of an outcome that carries a packet.
pub open spec fn packet_outcome(r: Result<Packet, CodecError>) -> Result<PacketView, CodecError> {
    match r {
        Ok(packet) => Ok(packet@),
        Err(e) => Err(e),
    }
}

/// Looks a string member up by name.
pub fn find_text(fields: &Vec<Field>, name: &str) -> (r: Option<String>)
    ensures
        text_view(r) == field_text(fields_view(fields@), name@),
{
    let wanted = name.to_owned();
    let ghost all = fields_view(fields@);
    assert(all.subrange(0, all.len() as int) =~= all);
    let mut i: usize = 0;
    while i < fields.len()
        invariant
            i <= fields.len(),
            all == fields_view(fields@),
            wanted@ == name@,
            field_text(all, name@) == field_text(all.subrange(i as int, all.len() as int), name@),
        decreases fields.len() - i,
    {
        let ghost rest = all.subrange(i as int, all.len() as int);
        assert(rest[0] == all[i as int]);
        if fields[i].name == wanted {
            return match &fields[i].text {
                Some(text) => Some(text.clone()),
                None => None,
            };
        }
        assert(rest.subrange(1, rest.len() as int) =~= all.subrange(i + 1, all.len() as int));
        i += 1;
    }
    None
}

/// Builds the packet that an object's members describe.
///
/// Succeeds exactly when the first member called `event` and the first
/// called `data` are both present and both strings; anything else is
/// [`CodecError::Schema`]. Members of other names are ignored.
pub fn packet_from_fields(fields: &Vec<Field>) -> (r: Result<Packet, CodecError>)
    ensures
        packet_outcome(r) == packet_of(fields_view(fields@)),
{
    let event = find_text(fields, "event");
    let data = find_text(fields, "data");
    match (event, data) {
        (Some(event), Some(data)) => Ok(Packet { event, data }),
        _ => Err(CodecError::Schema),
    }
}

/// Decodes the bytes of one record (without its delimiter).
///
/// Fails with [`CodecError::Malformed`] exactly when the JSON parser does not
/// read the bytes as one object, and with [`CodecError::Schema`] exactly when
/// it does but the object is no packet.
pub fn decode(record: &[u8]) -> (r: Result<Packet, CodecError>)
    ensures
        packet_outcome(r) == decoded(json_object_fields(record@)),
{
    match json_object(record) {
        Ok(fields) => packet_from_fields(&fields),
        Err(_) => Err(CodecError::Malformed),
    }
}

} // verus!
