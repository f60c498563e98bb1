//! Text encodings of the exchanges' files, prices written out, and (in
//! `clickhouse`) the steps that load the store.
pub mod clickhouse;

use crate::numeric::{decimal_text, Decimal};
use vstd::prelude::*;
use vstd::utf8::{decode_utf8, valid_utf8};

verus! {

/// The encoding in which a file's text was found.
#[derive(Clone, Copy, Debug, PartialEq, Eq, Structural)]
#[allow(clippy::upper_case_acronyms)]
pub enum Encoding {
    UTF8,
    GBK,
}

/// Why a file's bytes could not be read as text.
#[derive(Clone, Copy, Debug, PartialEq, Eq, Structural)]
pub enum DecodingError {
    /// Neither valid UTF-8 nor valid GBK.
    NotGbk,
    /// A byte order mark made the decoder switch from GBK to another encoding.
    NotGbkCodec,
}

/// Relies on `std::str::from_utf8`: it succeeds exactly on valid UTF-8, and
/// the text is then what the bytes encode.
#[verifier::external_body]
pub(crate) fn utf8_text(b: &[u8]) -> (r: Option<String>)
    ensures
        r is Some <==> valid_utf8(b@),
        r is Some ==> r.unwrap()@ == decode_utf8(b@),
{
    std::str::from_utf8(b).ok().map(String::from)
}

/// What `encoding_rs::GBK.decode` gives for these bytes: the text, whether
/// malformed sequences were replaced, and whether GBK itself was used.
pub uninterp spec fn gbk_decoding_of(b: Seq<u8>) -> (Seq<char>, bool, bool);

/// Relies on `encoding_rs::Encoding::decode` for `GBK`: the decoded text with
/// malformed sequences replaced, whether there were any, and the encoding
/// actually used (a byte order mark selects UTF-8 or UTF-16 instead). It
/// panics only where the output size overflows `usize`.
#[verifier::external_body]
fn gbk_decode(b: &[u8]) -> (r: (String, bool, bool))
    requires
        b@.len() <= usize::MAX / 4,
    ensures
        (r.0@, r.1, r.2) == gbk_decoding_of(b@),
{
    let (text, used, malformed) = encoding_rs::GBK.decode(b);
    (text.into_owned(), malformed, used == encoding_rs::GBK)
}

/// The outcome of a GBK decoding: the text where it had no malformed
/// sequence and GBK itself decoded, the error otherwise.
pub fn check_gbk(text: String, malformed: bool, used_gbk: bool) -> (r: Result<String, DecodingError>)
    ensures
        malformed ==> r == Err::<String, DecodingError>(DecodingError::NotGbk),
        !malformed && !used_gbk ==> r == Err::<String, DecodingError>(DecodingError::NotGbkCodec),
        !malformed && used_gbk ==> r is Ok && r.unwrap()@ == text@,
{
    if malformed {
        Err(DecodingError::NotGbk)
    } else if !used_gbk {
        Err(DecodingError::NotGbkCodec)
    } else {
        Ok(text)
    }
}

/// Reads a file's bytes as text: as UTF-8 where they are valid UTF-8, else as
/// GBK, which must then decode without a malformed sequence and without a
/// byte order mark switching the encoding.
pub fn read_txt(buf: &[u8]) -> (r: Result<(String, Encoding), DecodingError>)
    requires
        buf@.len() <= usize::MAX / 4,
    ensures
        valid_utf8(buf@) ==> r is Ok && r.unwrap().0@ == decode_utf8(buf@) && r.unwrap().1
            == Encoding::UTF8,
        !valid_utf8(buf@) ==> {
            let (text, malformed, used_gbk) = gbk_decoding_of(buf@);
            &&& malformed ==> r == Err::<(String, Encoding), DecodingError>(DecodingError::NotGbk)
            &&& !malformed && !used_gbk ==> r == Err::<(String, Encoding), DecodingError>(
                DecodingError::NotGbkCodec,
            )
            &&& !malformed && used_gbk ==> r is Ok && r.unwrap().0@ == text && r.unwrap().1
                == Encoding::GBK
        },
{
    match utf8_text(buf) {
        Some(s) => Ok((s, Encoding::UTF8)),
        None => {
            let (text, malformed, used_gbk) = gbk_decode(buf);
            match check_gbk(text, malformed, used_gbk) {
                Ok(t) => Ok((t, Encoding::GBK)),
                Err(e) => Err(e),
            }
        },
    }
}

/// An optional price written out; empty where it is absent.
pub fn display_option(t: &Option<Decimal>) -> (r: String)
    ensures
        match *t {
            Some(d) => r@ == decimal_text(d),
            None => r@.len() == 0,
        },
{
    match t {
        Some(d) => d.to_text(),
        None => String::new(),
    }
}

} // verus!
