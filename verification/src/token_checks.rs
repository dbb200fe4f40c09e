//! Stateless checks of token and NFT metadata: ticker, name, description,
//! media hash and URI.
//!
//! Whether a byte string decodes as text, and which characters count as
//! alphanumeric, are std's business; the two trusted items below name those
//! results, and every check is exact over the names.

use vstd::prelude::*;

use crate::config::ChainConfig;

verus! {

/// Errors of the metadata checks.
#[derive(Clone, Copy, Debug, PartialEq, Eq, Structural)]
pub enum TokenIssuanceError {
    IssueErrorInvalidTickerLength,
    IssueErrorTickerHasNoneAlphaNumericChar,
    IssueErrorInvalidNameLength,
    IssueErrorNameHasNoneAlphaNumericChar,
    IssueErrorInvalidDescriptionLength,
    IssueErrorDescriptionHasNoneAlphaNumericChar,
    MediaHashTooShort,
    MediaHashTooLong,
}

/// The characters a byte string decodes to, when it is well-formed text.
pub uninterp spec fn utf8_chars(bytes: Seq<u8>) -> Option<Seq<char>>;

/// Whether a character counts as alphanumeric.
pub uninterp spec fn char_alphanumeric(c: char) -> bool;

/// Relies on String::from_utf8: the decoding is a function of the bytes
/// alone; it succeeds exactly on well-formed text and then yields its
/// characters.
#[verifier::external_body]
fn decode_utf8(bytes: &Vec<u8>) -> (r: Option<String>)
    ensures
        match r {
            Some(s) => utf8_chars(bytes@) == Some(s@),
            None => utf8_chars(bytes@) is None,
        },
{
    match String::from_utf8(bytes.clone()) {
        Ok(s) => Some(s),
        Err(_) => None,
    }
}

/// Relies on char::is_alphanumeric: the answer is a function of the
/// character alone.
#[verifier::external_body]
fn is_alphanumeric_char(c: char) -> (r: bool)
    ensures
        r == char_alphanumeric(c),
{
    c.is_alphanumeric()
}

/// Whether a byte string is text made of alphanumeric characters only.
pub open spec fn spec_text_alphanumeric(bytes: Seq<u8>) -> bool {
    match utf8_chars(bytes) {
        Some(cs) => forall|i: int| 0 <= i < cs.len() ==> char_alphanumeric(#[trigger] cs[i]),
        None => false,
    }
}

/// Whether a character may appear in a metadata URI.
pub open spec fn spec_rfc3986_symbol(ch: char) -> bool {
    ch == '%' || ch == ':' || ch == '/' || ch == '?' || ch == '#' || ch == '[' || ch == ']' || ch
        == '@' || ch == '!' || ch == '$' || ch == '&' || ch == '\'' || ch == '(' || ch == ')' || ch
        == '*' || ch == '+' || ch == ',' || ch == ';' || ch == '=' || ch == '-' || ch == '.' || ch
        == '_' || ch == '~'
}

/// Whether a byte string is a well-formed metadata URI: text whose every
/// character is alphanumeric or a URI symbol.
pub open spec fn spec_uri_valid(bytes: Seq<u8>) -> bool {
    match utf8_chars(bytes) {
        Some(cs) => forall|i: int|
            0 <= i < cs.len() ==> char_alphanumeric(#[trigger] cs[i]) || spec_rfc3986_symbol(
                cs[i],
            ),
        None => false,
    }
}

/// Whether the character may appear in a URI beyond the alphanumerics:
/// the unreserved and reserved symbols of the URI syntax.
pub fn is_rfc3986_valid_symbol(ch: char) -> (r: bool)
    ensures
        r == spec_rfc3986_symbol(ch),
{
    ch == '%' || ch == ':' || ch == '/' || ch == '?' || ch == '#' || ch == '[' || ch == ']' || ch
        == '@' || ch == '!' || ch == '$' || ch == '&' || ch == '\'' || ch == '(' || ch == ')' || ch
        == '*' || ch == '+' || ch == ',' || ch == ';' || ch == '=' || ch == '-' || ch == '.' || ch
        == '_' || ch == '~'
}

/// Whether the bytes decode to text of alphanumeric characters only.
pub fn check_is_text_alphanumeric(text: &Vec<u8>) -> (r: bool)
    ensures
        r == spec_text_alphanumeric(text@),
{
    let decoded = match decode_utf8(text) {
        Some(s) => s,
        None => {
            return false;
        },
    };
    let n = decoded.unicode_len();
    let mut i: usize = 0;
    while i < n
        invariant
            i <= n,
            n == decoded@.len(),
            utf8_chars(text@) == Some(decoded@),
            forall|j: int| 0 <= j < i ==> char_alphanumeric(#[trigger] decoded@[j]),
        decreases n - i,
    {
        let c = decoded.get_char(i);
        if !is_alphanumeric_char(c) {
            proof {
                let cs = utf8_chars(text@).unwrap();
                assert(cs == decoded@);
                assert(!char_alphanumeric(cs[i as int]));
            }
            return false;
        }
        i = i + 1;
    }
    true
}

/// Whether the bytes decode to a well-formed metadata URI.
pub fn is_uri_valid(uri: &Vec<u8>) -> (r: bool)
    ensures
        r == spec_uri_valid(uri@),
{
    let decoded = match decode_utf8(uri) {
        Some(s) => s,
        None => {
            return false;
        },
    };
    let n = decoded.unicode_len();
    let mut i: usize = 0;
    while i < n
        invariant
            i <= n,
            n == decoded@.len(),
            utf8_chars(uri@) == Some(decoded@),
            forall|j: int|
                0 <= j < i ==> char_alphanumeric(#[trigger] decoded@[j]) || spec_rfc3986_symbol(
                    decoded@[j],
                ),
        decreases n - i,
    {
        let c = decoded.get_char(i);
        if !is_alphanumeric_char(c) && !is_rfc3986_valid_symbol(c) {
            proof {
                let cs = utf8_chars(uri@).unwrap();
                assert(cs == decoded@);
                assert(!char_alphanumeric(cs[i as int]) && !spec_rfc3986_symbol(cs[i as int]));
            }
            return false;
        }
        i = i + 1;
    }
    true
}

/// Checks a media hash's length.  Exact errors: shorter than the shortest
/// accepted, or longer than the longest.
pub fn check_media_hash(chain_config: &ChainConfig, hash: &Vec<u8>) -> (r: Result<
    (),
    TokenIssuanceError,
>)
    ensures
        match r {
            Ok(_) => chain_config.min_hash_len <= hash@.len() <= chain_config.max_hash_len,
            Err(e) => {
                &&& (e == TokenIssuanceError::MediaHashTooShort || e
                    == TokenIssuanceError::MediaHashTooLong)
                &&& (e == TokenIssuanceError::MediaHashTooShort <==> hash@.len()
                    < chain_config.min_hash_len)
                &&& (e == TokenIssuanceError::MediaHashTooLong <==> hash@.len()
                    >= chain_config.min_hash_len && hash@.len() > chain_config.max_hash_len)
            },
        },
{
    if hash.len() < chain_config.min_hash_len() {
        return Err(TokenIssuanceError::MediaHashTooShort);
    }
    if hash.len() > chain_config.max_hash_len() {
        return Err(TokenIssuanceError::MediaHashTooLong);
    }
    Ok(())
}

/// Checks a token ticker: non-empty, within the configured length, and
/// alphanumeric text.  Exact errors for each failure.
pub fn check_token_ticker(chain_config: &ChainConfig, ticker: &Vec<u8>) -> (r: Result<
    (),
    TokenIssuanceError,
>)
    ensures
        match r {
            Ok(_) => 0 < ticker@.len() <= chain_config.token_max_ticker_len
                && spec_text_alphanumeric(ticker@),
            Err(e) => {
                &&& (e == TokenIssuanceError::IssueErrorInvalidTickerLength || e
                    == TokenIssuanceError::IssueErrorTickerHasNoneAlphaNumericChar)
                &&& (e == TokenIssuanceError::IssueErrorInvalidTickerLength <==> !(0 < ticker@.len()
                    <= chain_config.token_max_ticker_len))
                &&& (e == TokenIssuanceError::IssueErrorTickerHasNoneAlphaNumericChar <==> (0
                    < ticker@.len() <= chain_config.token_max_ticker_len)
                    && !spec_text_alphanumeric(ticker@))
            },
        },
{
    if ticker.len() > chain_config.token_max_ticker_len() || ticker.len() == 0 {
        return Err(TokenIssuanceError::IssueErrorInvalidTickerLength);
    }
    if !check_is_text_alphanumeric(ticker) {
        return Err(TokenIssuanceError::IssueErrorTickerHasNoneAlphaNumericChar);
    }
    Ok(())
}

/// Checks an NFT name: non-empty, within the configured length, and
/// alphanumeric text.  Exact errors for each failure.
pub fn check_nft_name(chain_config: &ChainConfig, name: &Vec<u8>) -> (r: Result<
    (),
    TokenIssuanceError,
>)
    ensures
        match r {
            Ok(_) => 0 < name@.len() <= chain_config.token_max_name_len && spec_text_alphanumeric(
                name@,
            ),
            Err(e) => {
                &&& (e == TokenIssuanceError::IssueErrorInvalidNameLength || e
                    == TokenIssuanceError::IssueErrorNameHasNoneAlphaNumericChar)
                &&& (e == TokenIssuanceError::IssueErrorInvalidNameLength <==> !(0 < name@.len()
                    <= chain_config.token_max_name_len))
                &&& (e == TokenIssuanceError::IssueErrorNameHasNoneAlphaNumericChar <==> (0
                    < name@.len() <= chain_config.token_max_name_len) && !spec_text_alphanumeric(
                    name@,
                ))
            },
        },
{
    if name.len() > chain_config.token_max_name_len() || name.len() == 0 {
        return Err(TokenIssuanceError::IssueErrorInvalidNameLength);
    }
    if !check_is_text_alphanumeric(name) {
        return Err(TokenIssuanceError::IssueErrorNameHasNoneAlphaNumericChar);
    }
    Ok(())
}

/// Checks an NFT description: non-empty, within the configured length, and
/// alphanumeric text.  Exact errors for each failure.
pub fn check_nft_description(chain_config: &ChainConfig, description: &Vec<u8>) -> (r: Result<
    (),
    TokenIssuanceError,
>)
    ensures
        match r {
            Ok(_) => 0 < description@.len() <= chain_config.token_max_description_len
                && spec_text_alphanumeric(description@),
            Err(e) => {
                &&& (e == TokenIssuanceError::IssueErrorInvalidDescriptionLength || e
                    == TokenIssuanceError::IssueErrorDescriptionHasNoneAlphaNumericChar)
                &&& (e == TokenIssuanceError::IssueErrorInvalidDescriptionLength <==> !(0
                    < description@.len() <= chain_config.token_max_description_len))
                &&& (e == TokenIssuanceError::IssueErrorDescriptionHasNoneAlphaNumericChar <==> (0
                    < description@.len() <= chain_config.token_max_description_len)
                    && !spec_text_alphanumeric(description@))
            },
        },
{
    if description.len() > chain_config.token_max_description_len() || description.len() == 0 {
        return Err(TokenIssuanceError::IssueErrorInvalidDescriptionLength);
    }
    if !check_is_text_alphanumeric(description) {
        return Err(TokenIssuanceError::IssueErrorDescriptionHasNoneAlphaNumericChar);
    }
    Ok(())
}

} // verus!
