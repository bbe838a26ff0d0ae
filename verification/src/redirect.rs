use vstd::prelude::*;

use bstr::ByteSlice;

verus! {

/// Why probing a shorts URL gives no verdict.
#[derive(Debug, Clone, Copy, PartialEq, Eq, Structural)]
pub enum CheckRedirectError {
    /// The request itself failed; there is no response to classify.
    BadRequest,
    /// The response is no clean answer: an unexpected status, or a
    /// redirect without a Location header.
    BadResponse,
    /// A redirect that does not lead to a watch page.
    NonWatchRedirect,
}

/// What a HEAD probe of a video's shorts URL answered: the status code,
/// and the Location header if one came.
#[derive(Debug)]
pub struct HeadResponse {
    pub status: u16,
    pub location: Option<Vec<u8>>,
}

/// Whether `needle` occurs in `hay` as a contiguous byte substring.
pub open spec fn contains_subseq(hay: Seq<u8>, needle: Seq<u8>) -> bool {
    exists|i: int|
        0 <= i <= hay.len() - needle.len() && #[trigger] hay.subrange(i, i + needle.len())
            == needle
}

/// Relies on bstr's `ByteSlice::contains_str`: true if and only if the
/// haystack contains the given needle.
#[verifier::external_body]
fn contains_bytes(hay: &[u8], needle: &[u8]) -> (r: bool)
    ensures
        r == contains_subseq(hay@, needle@),
{
    hay.contains_str(needle)
}

/// The bytes of the path segment a non-short video's redirect points at.
pub open spec fn watch_needle() -> Seq<u8> {
    seq![119u8, 97u8, 116u8, 99u8, 104u8]
}

/// Classify the answer of a HEAD probe of a video's shorts URL.  A success
/// means the video is a short; a redirect to a watch page means it is not;
/// anything ambiguous is an error, never a verdict — a missing Location
/// header, a redirect elsewhere, an unexpected status, or no response at
/// all.
pub fn check_redirect(response: Option<&HeadResponse>) -> (r: Result<bool, CheckRedirectError>)
    ensures
        r == (match response {
            None => Err::<bool, CheckRedirectError>(CheckRedirectError::BadRequest),
            Some(resp) => {
                if 200 <= resp.status < 300 {
                    Ok::<bool, CheckRedirectError>(true)
                } else if 300 <= resp.status < 400 {
                    match resp.location {
                        None => Err::<bool, CheckRedirectError>(CheckRedirectError::BadResponse),
                        Some(ref loc) => if contains_subseq(loc@, watch_needle()) {
                            Ok::<bool, CheckRedirectError>(false)
                        } else {
                            Err::<bool, CheckRedirectError>(CheckRedirectError::NonWatchRedirect)
                        },
                    }
                } else {
                    Err::<bool, CheckRedirectError>(CheckRedirectError::BadResponse)
                }
            },
        }),
{
    let resp = match response {
        None => {
            return Err(CheckRedirectError::BadRequest);
        },
        Some(resp) => resp,
    };
    if 200 <= resp.status && resp.status < 300 {
        Ok(true)
    } else if 300 <= resp.status && resp.status < 400 {
        match &resp.location {
            None => Err(CheckRedirectError::BadResponse),
            Some(loc) => {
                let mut needle: Vec<u8> = Vec::new();
                needle.push(119);
                needle.push(97);
                needle.push(116);
                needle.push(99);
                needle.push(104);
                proof {
                    assert(needle@ =~= watch_needle());
                }
                if contains_bytes(loc.as_slice(), needle.as_slice()) {
                    Ok(false)
                } else {
                    Err(CheckRedirectError::NonWatchRedirect)
                }
            },
        }
    } else {
        Err(CheckRedirectError::BadResponse)
    }
}

} // verus!
