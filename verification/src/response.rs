//! The response record of one `git` invocation, and how it is put
//! together once the child has exited.

use vstd::prelude::*;
use vstd::string::StringExecFns;
use crate::error::GitError;

verus! {

/// What one `git` child wrote and how it ended.  `status` is the
/// child's numeric exit code; a non-zero code is a faithful report,
/// not an error of the bridge.
#[derive(Debug, Clone, PartialEq)]
pub struct GitResponse {
    pub stdout: String,
    pub stderr: String,
    pub status: i32,
}

/// The characters `String::from_utf8_lossy` yields for `bytes`:
/// UTF-8 decoding with U+FFFD substituted for invalid sequences.
pub uninterp spec fn lossy_of(bytes: Seq<u8>) -> Seq<char>;

/// Relies on `String::from_utf8_lossy`: its result depends on the bytes
/// alone, and its documentation promises that valid UTF-8 comes through
/// unchanged.
#[verifier::external_body]
pub(crate) fn lossy_string(bytes: &Vec<u8>) -> (r: String)
    ensures
        r@ == lossy_of(bytes@),
        vstd::utf8::valid_utf8(bytes@) ==> r@ == vstd::utf8::decode_utf8(bytes@),
{
    String::from_utf8_lossy(bytes.as_slice()).into_owned()
}

/// Assembles the response record for a child whose output streams have
/// been drained to end-of-file.  `code` is the child's exit code, or
/// `None` when the child was terminated without one; only that case is
/// an error, and it is reported distinctly, never as a made-up status.
pub fn finish_response(stdout: Vec<u8>, stderr: Vec<u8>, code: Option<i32>) -> (r: Result<
    GitResponse,
    GitError,
>)
    ensures
        r is Ok <==> code is Some,
        r matches Ok(resp) ==> {
            &&& resp.status == code->0
            &&& resp.stdout@ == lossy_of(stdout@)
            &&& resp.stderr@ == lossy_of(stderr@)
        },
        r matches Err(e) ==> e is AbnormalTermination,
{
    match code {
        Some(status) => Ok(
            GitResponse {
                stdout: lossy_string(&stdout),
                stderr: lossy_string(&stderr),
                status,
            },
        ),
        None => Err(
            GitError::AbnormalTermination {
                message: String::from_str("child exited without an exit code"),
            },
        ),
    }
}

} // verus!
