//! Documents that arrive as Base64 text. The `base64` crate decodes; this
//! module turns its error into the library's.

use crate::error::AppError;
use base64::engine::general_purpose::STANDARD;
use base64::Engine;
use vstd::prelude::*;
use vstd::string::StringExecFns;

verus! {

/// How the message begins where a payload is no Base64.
pub const PAYLOAD_FAILURE: &'static str = "Erro ao decodificar Base64: ";

/// What `decode` of the `base64` crate's engine `STANDARD` makes of `text`:
/// the bytes, or, where it reports an error, the message that the error
/// prints.
pub uninterp spec fn base64_decoded(text: Seq<char>) -> Result<Seq<u8>, Seq<char>>;

/// Calls `Engine::decode` on the engine `STANDARD`. The result is the one
/// named by `base64_decoded`, the error being handed back as the message
/// that `DecodeError` prints.
#[verifier::external_body]
fn decode_standard(text: &str) -> (r: Result<Vec<u8>, String>)
    ensures
        match r {
            Ok(bytes) => base64_decoded(text@) == Ok::<Seq<u8>, Seq<char>>(bytes@),
            Err(reason) => base64_decoded(text@) == Err::<Seq<u8>, Seq<char>>(reason@),
        },
{
    match STANDARD.decode(text) {
        Ok(bytes) => Ok(bytes),
        Err(error) => Err(error.to_string()),
    }
}

/// The bytes of a document that is given as standard Base64 with padding;
/// `InvalidData` where the text is no such encoding.
pub fn decode_pdf_base64(payload: &str) -> (r: Result<Vec<u8>, AppError>)
    ensures
        match base64_decoded(payload@) {
            Ok(bytes) => r matches Ok(decoded) && decoded@ == bytes,
            Err(reason) => r matches Err(AppError::InvalidData(message)) && message@
                == PAYLOAD_FAILURE@ + reason,
        },
{
    match decode_standard(payload) {
        Ok(bytes) => Ok(bytes),
        Err(reason) => {
            let mut message = String::from_str(PAYLOAD_FAILURE);
            message.append(reason.as_str());
            Err(AppError::InvalidData(message))
        },
    }
}

} // verus!
