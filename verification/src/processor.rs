//! What can go wrong with a single item, and the record that is kept of it.
//!
//! An item is fetched, decoded, raised in volume and encoded again. Each of
//! these steps can fail. A failure ends the work on that item and on no
//! other: it is kept as a value, under the item's content hash.

use crate::client::asset_address;
use crate::client::asset_url;
use vstd::prelude::*;

verus! {

/// The step of the codec that failed.
#[derive(Clone, Copy, Debug, PartialEq, Eq, Structural)]
pub enum CodecError {
    /// The bytes are not a valid encoded stream.
    Decode,
    /// The blocks could not be encoded, or the encoder could not be finished.
    Encode,
}

/// The steps of the codec on one item, in the order in which they are taken.
#[derive(Clone, Copy, Debug, PartialEq, Eq, Structural)]
pub enum CodecStep {
    /// The stream is opened and its header is read.
    OpenDecoder,
    /// An encoder is set up for the rate and the channels of the stream.
    OpenEncoder,
    /// The next block is decoded.
    DecodeBlock,
    /// A block is encoded.
    EncodeBlock,
    /// The encoder is finished and hands out the encoded stream.
    FinishEncoder,
}

/// The error that a failure at `step` is: reading the stream is decoding,
/// everything that the encoder does is encoding.
pub fn codec_error(step: CodecStep) -> (error: CodecError)
    ensures
        error == match step {
            CodecStep::OpenDecoder | CodecStep::DecodeBlock => CodecError::Decode,
            CodecStep::OpenEncoder | CodecStep::EncodeBlock | CodecStep::FinishEncoder =>
                CodecError::Encode,
        },
{
    match step {
        CodecStep::OpenDecoder => CodecError::Decode,
        CodecStep::DecodeBlock => CodecError::Decode,
        CodecStep::OpenEncoder => CodecError::Encode,
        CodecStep::EncodeBlock => CodecError::Encode,
        CodecStep::FinishEncoder => CodecError::Encode,
    }
}

/// Why an item has no processed payload.
#[derive(Clone, Copy, Debug, PartialEq, Eq, Structural)]
pub enum ProcessError {
    /// The payload could not be fetched.
    Network,
    /// The payload was fetched, and the codec failed on it.
    Codec(CodecError),
}

/// The failure of one item, under the content hash of that item.
pub struct ItemFailure {
    pub hash: String,
    pub error: ProcessError,
}

/// What is said of an error.
pub open spec fn error_text(error: ProcessError) -> Seq<char> {
    match error {
        ProcessError::Network => "failed to fetch asset bytes"@,
        ProcessError::Codec(CodecError::Decode) => "failed to decode an audio block"@,
        ProcessError::Codec(CodecError::Encode) => "failed to encode audio block"@,
    }
}

impl ProcessError {
    /// A sentence that says what failed.
    pub fn message(&self) -> (text: String)
        ensures
            text@ == error_text(*self),
    {
        match self {
            ProcessError::Network => String::from_str("failed to fetch asset bytes"),
            ProcessError::Codec(CodecError::Decode) => String::from_str(
                "failed to decode an audio block",
            ),
            ProcessError::Codec(CodecError::Encode) => String::from_str(
                "failed to encode audio block",
            ),
        }
    }
}

/// Processes one item: fetches the payload of `hash` from its address and
/// has it transcoded.
///
/// The address is [`asset_address`]. `fetch` is asked for the bytes at that
/// address and gives `None` where they cannot be had; `transcode` turns the
/// bytes that were fetched into the processed payload. The first step that
/// fails ends the work: a hash without an address and a failed fetch are a
/// [`ProcessError::Network`], a failure of the codec is handed on as it is,
/// and `transcode` is asked only for what `fetch` has given.
pub fn process_asset<Fetch, Transcode>(hash: &String, fetch: Fetch, transcode: Transcode) -> (outcome:
    Result<Vec<u8>, ProcessError>) where
    Fetch: Fn(&String) -> Option<Vec<u8>>,
    Transcode: Fn(Vec<u8>) -> Result<Vec<u8>, CodecError>,

    requires
        forall|url: &String| call_requires(fetch, (url,)),
        forall|raw: Vec<u8>| call_requires(transcode, (raw,)),
    ensures
        match outcome {
            Ok(payload) => exists|url: String, raw: Vec<u8>|
                {
                    &&& url@ == asset_address(hash@)
                    &&& hash@.len() >= 2
                    &&& call_ensures(fetch, (&url,), Some(raw))
                    &&& call_ensures(transcode, (raw,), Ok(payload))
                },
            Err(ProcessError::Network) => hash@.len() < 2 || exists|url: String|
                url@ == asset_address(hash@) && call_ensures(fetch, (&url,), None::<Vec<u8>>),
            Err(ProcessError::Codec(error)) => exists|url: String, raw: Vec<u8>|
                {
                    &&& url@ == asset_address(hash@)
                    &&& hash@.len() >= 2
                    &&& call_ensures(fetch, (&url,), Some(raw))
                    &&& call_ensures(transcode, (raw,), Err::<Vec<u8>, CodecError>(error))
                },
        },
{
    let url = match asset_url(hash.as_str()) {
        Some(url) => url,
        None => {
            return Err(ProcessError::Network);
        },
    };
    let fetched = fetch(&url);
    let raw = match fetched {
        Some(raw) => raw,
        None => {
            return Err(ProcessError::Network);
        },
    };
    let ghost given = raw;
    let transcoded = transcode(raw);
    match transcoded {
        Ok(payload) => {
            assert(call_ensures(fetch, (&url,), Some(given)));
            assert(call_ensures(transcode, (given,), Ok(payload)));
            Ok(payload)
        },
        Err(error) => {
            assert(call_ensures(fetch, (&url,), Some(given)));
            assert(call_ensures(transcode, (given,), Err::<Vec<u8>, CodecError>(error)));
            Err(ProcessError::Codec(error))
        },
    }
}

} // verus!
