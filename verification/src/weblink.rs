use vstd::prelude::*;

use crate::error::{Error, ErrorCode};
use crate::parser::Parser;
use crate::recognize_separated::{
    lemma_consuming_separated_progressive, lemma_pairs_end, pairs_scan, separated_end,
};
use crate::search::{is_match_at, starts_with};
use crate::simple::{
    lemma_char_run1_consuming, lemma_run_len, run_len, run_length, ByteClass, CharRun1, OneIn,
};
use vstd::slice::slice_subrange;

verus! {

/// The byte value of `h`.
pub const LETTER_H: u8 = 104;

/// The byte value of `t`.
pub const LETTER_T: u8 = 116;

/// The byte value of `p`.
pub const LETTER_P: u8 = 112;

/// The byte value of `s`.
pub const LETTER_S: u8 = 115;

/// The byte value of `:`.
pub const COLON: u8 = 58;

/// The byte value of `/`.
pub const SLASH: u8 = 47;

/// The bytes of `https://`.
pub open spec fn https_scheme() -> Seq<u8> {
    seq![LETTER_H, LETTER_T, LETTER_T, LETTER_P, LETTER_S, COLON, SLASH, SLASH]
}

/// The bytes of `http://`.
pub open spec fn http_scheme() -> Seq<u8> {
    seq![LETTER_H, LETTER_T, LETTER_T, LETTER_P, COLON, SLASH, SLASH]
}

/// The input begins with one of the two accepted schemes.
pub open spec fn weblink_ok(s: Seq<u8>) -> bool {
    is_match_at(s, https_scheme(), 0) || is_match_at(s, http_scheme(), 0)
}

/// The length of the scheme found at the start of the input.
pub open spec fn scheme_len(s: Seq<u8>) -> int {
    if is_match_at(s, https_scheme(), 0) {
        8
    } else {
        7
    }
}

/// Where a recognized web link ends: after the scheme, the longest run of
/// link-character segments separated by single slashes.
pub open spec fn weblink_end(s: Seq<u8>) -> int {
    separated_end(
        CharRun1 { class: ByteClass::Link },
        OneIn { class: ByteClass::Byte(SLASH) },
        s,
        scheme_len(s),
    )
}

/// Split off the longest leading run of link-segment bytes (ASCII letters
/// and digits, `-`, `_` and `.`); fails when that run is empty.
pub fn link_char<'a>(input: &'a [u8]) -> (r: Result<(&'a [u8], &'a [u8]), Error>)
    ensures
        r is Ok <==> run_len(ByteClass::Link, input@) >= 1,
        r matches Ok((rem, out)) ==> ({
            let n = run_len(ByteClass::Link, input@);
            rem@ == input@.skip(n) && out@ == input@.take(n)
        }),
        r matches Err(e) ==> e == (Error { pos: 0usize, code: ErrorCode::ItemFailed }),
{
    let n = run_length(&ByteClass::Link, input);
    proof {
        lemma_run_len(ByteClass::Link, input@);
    }
    if n == 0 {
        Err(Error { pos: 0, code: ErrorCode::ItemFailed })
    } else {
        Ok((slice_subrange(input, n, input.len()), slice_subrange(input, 0, n)))
    }
}

/// Takes a web link from the start of the input: `https://` or `http://`,
/// followed by the longest run of link-character segments separated by
/// single slashes.  Returns the recognized span and the remaining input;
/// fails exactly when neither scheme is present.
pub fn weblink<'a>(input: &'a [u8]) -> (r: Result<(&'a [u8], &'a [u8]), Error>)
    ensures
        r is Ok <==> weblink_ok(input@),
        r matches Ok((rem, span)) ==> (0 <= weblink_end(input@) <= input@.len() && rem@
            == input@.skip(weblink_end(input@)) && span@ == input@.take(weblink_end(input@))),
        r matches Err(e) ==> e == (Error { pos: 0usize, code: ErrorCode::ItemFailed }),
{
    let https: Vec<u8> = vec![LETTER_H, LETTER_T, LETTER_T, LETTER_P, LETTER_S, COLON, SLASH, SLASH];
    let http: Vec<u8> = vec![LETTER_H, LETTER_T, LETTER_T, LETTER_P, COLON, SLASH, SLASH];
    proof {
        assert(https@ =~= https_scheme());
        assert(http@ =~= http_scheme());
    }
    let k: usize;
    if starts_with(input, https.as_slice()) {
        k = 8;
    } else if starts_with(input, http.as_slice()) {
        k = 7;
    } else {
        return Err(Error { pos: 0, code: ErrorCode::ItemFailed });
    }
    let item = CharRun1 { class: ByteClass::Link };
    let sep = OneIn { class: ByteClass::Byte(SLASH) };
    proof {
        lemma_char_run1_consuming(ByteClass::Link);
        lemma_consuming_separated_progressive(item, sep, input@);
    }
    let rest = slice_subrange(input, k, input.len());
    proof {
        assert(rest@ =~= input@.skip(k as int));
    }
    let e: usize = match item.parse(rest) {
        None => k,
        Some((n, _)) => {
            let e = pairs_scan(&item, &sep, input, k + n);
            proof {
                lemma_pairs_end(item, sep, input@, k + n);
            }
            e
        },
    };
    let rem = slice_subrange(input, e, input.len());
    let span = slice_subrange(input, 0, e);
    proof {
        assert(rem@ =~= input@.skip(e as int));
        assert(span@ =~= input@.take(e as int));
    }
    Ok((rem, span))
}

} // verus!
