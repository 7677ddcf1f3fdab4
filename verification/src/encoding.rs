//! Text in encodings other than UTF-8, by the labels of the Encoding
//! Standard. The tables and the conversions are those of `encoding_rs`;
//! what they give is named here, and not spelled out.

use crate::error::ParsingError;
use encoding_rs::Encoding;
use vstd::prelude::*;
use vstd::string::StringSliceAdditionalSpecFns;

verus! {

/// `encoding_rs::Encoding`, an encoding of the Encoding Standard, carried
/// from the lookup of a label to the conversion.
#[verifier::external_type_specification]
#[verifier::external_body]
pub struct ExEncoding(Encoding);

/// The encoding that `Encoding::for_label` finds for a label, if it finds
/// one.
pub uninterp spec fn encoding_for_label(label: Seq<char>) -> Option<&'static Encoding>;

/// The text that `Encoding::decode` makes of bytes.
pub uninterp spec fn decoded(encoding: &Encoding, bytes: Seq<u8>) -> Seq<char>;

/// The bytes that `Encoding::encode` makes of a text.
pub uninterp spec fn encoded(encoding: &Encoding, text: Seq<char>) -> Seq<u8>;

/// The most bytes that are handed over for decoding or encoding. The sizes
/// that `encoding_rs` computes for its buffers stay under a small multiple
/// of the input's length, and so within `usize` for inputs up to here.
pub const MAX_CODEC_INPUT: usize = usize::MAX / 64;

/// Looks a label up.
///
/// Calls `Encoding::for_label` on the bytes of the label. What it returns
/// depends on the label alone; the contract gives it its name and says
/// nothing of which labels there are.
#[verifier::external_body]
fn for_label(label: &str) -> (r: Option<&'static Encoding>)
    ensures
        r == encoding_for_label(label@),
{
    Encoding::for_label(label.as_bytes())
}

/// Decodes all of `bytes`.
///
/// Calls `Encoding::decode` and keeps the text, the first of the three
/// values it returns. The text depends on the encoding and the bytes alone;
/// the contract gives it its name and says nothing of what it holds.
/// `Encoding::decode` panics where a buffer size overflows `usize`, which
/// the bound on the length keeps it from.
#[verifier::external_body]
fn decode(encoding: &'static Encoding, bytes: &[u8]) -> (text: String)
    requires
        bytes@.len() <= MAX_CODEC_INPUT,
    ensures
        text@ == decoded(encoding, bytes@),
{
    encoding.decode(bytes).0.into_owned()
}

/// Encodes all of `text`.
///
/// Calls `Encoding::encode` and keeps the bytes, the first of the three
/// values it returns. The bytes depend on the encoding and the text alone;
/// the contract gives them their name and says nothing of what they hold.
/// `Encoding::encode` panics where a buffer size overflows `usize`, which
/// the bound on the length keeps it from.
#[verifier::external_body]
fn encode(encoding: &'static Encoding, text: &str) -> (bytes: Vec<u8>)
    requires
        text.spec_bytes().len() <= MAX_CODEC_INPUT,
    ensures
        bytes@ == encoded(encoding, text@),
{
    encoding.encode(text).0.into_owned()
}

/// Whether `label` is the label of an encoding.
pub fn is_encoding_label(label: &str) -> (b: bool)
    ensures
        b == encoding_for_label(label@).is_some(),
{
    for_label(label).is_some()
}

/// The text that `bytes` stand for in the encoding that `label` names.
pub fn decode_text(bytes: &[u8], label: &str) -> (r: Result<String, ParsingError>)
    requires
        bytes@.len() <= MAX_CODEC_INPUT,
    ensures
        match encoding_for_label(label@) {
            Some(encoding) => r is Ok && r->Ok_0@ == decoded(encoding, bytes@),
            None => r == Err::<String, ParsingError>(ParsingError::BadEncodingName),
        },
{
    match for_label(label) {
        Some(encoding) => Ok(decode(encoding, bytes)),
        None => Err(ParsingError::BadEncodingName),
    }
}

/// The bytes that stand for `text` in the encoding that `label` names.
pub fn encode_text(text: &str, label: &str) -> (r: Result<Vec<u8>, ParsingError>)
    requires
        text.spec_bytes().len() <= MAX_CODEC_INPUT,
    ensures
        match encoding_for_label(label@) {
            Some(encoding) => r is Ok && r->Ok_0@ == encoded(encoding, text@),
            None => r == Err::<Vec<u8>, ParsingError>(ParsingError::BadEncodingName),
        },
{
    match for_label(label) {
        Some(encoding) => Ok(encode(encoding, text)),
        None => Err(ParsingError::BadEncodingName),
    }
}

} // verus!
