use vstd::prelude::*;

use crate::error::{Error, ErrorCode};
use crate::parser::{consuming, Parser};
use vstd::slice::slice_subrange;

verus! {

/// The unit `separator` then `item` matches at position `pos` of `s`.
pub open spec fn pair_ok<P: Parser, S: Parser>(item: P, sep: S, s: Seq<u8>, pos: int) -> bool {
    sep.ok(s.skip(pos)) && item.ok(s.skip(pos + sep.consumed(s.skip(pos))))
}

/// The position right after the `separator item` unit that matches at
/// `pos`.
pub open spec fn pair_end<P: Parser, S: Parser>(item: P, sep: S, s: Seq<u8>, pos: int) -> int {
    let m = pos + sep.consumed(s.skip(pos));
    m + item.consumed(s.skip(m))
}

/// Wherever the `separator item` unit matches, it consumes at least one
/// element; the separated run then advances strictly with every unit.
pub open spec fn separated_progressive<P: Parser, S: Parser>(item: P, sep: S, s: Seq<u8>) -> bool {
    forall|j: int|
        0 <= j <= s.len() && #[trigger] pair_ok(item, sep, s, j) ==> pair_end(item, sep, s, j) >= j
            + 1
}

/// An item parser that always consumes on success keeps the separated run
/// progressive, whatever the separator does.
pub proof fn lemma_consuming_separated_progressive<P: Parser, S: Parser>(
    item: P,
    sep: S,
    s: Seq<u8>,
)
    requires
        consuming(item),
    ensures
        separated_progressive(item, sep, s),
{
    assert forall|j: int|
        0 <= j <= s.len() && #[trigger] pair_ok(item, sep, s, j) implies pair_end(item, sep, s, j)
        >= j + 1 by {
        sep.lemma_consumed_in_range(s.skip(j));
    }
}

/// The stop position of the `(separator item)*` tail that begins at
/// `pos`: units are appended while the pair matches, and the position
/// after the last matched item is reported — a trailing separator that is
/// not completed by an item is left unconsumed.
pub open spec fn pairs_end<P: Parser, S: Parser>(item: P, sep: S, s: Seq<u8>, pos: int) -> int
    decreases s.len() - pos,
    when 0 <= pos <= s.len() && separated_progressive(item, sep, s)
    via pairs_end_decreases::<P, S>
{
    if pair_ok(item, sep, s, pos) {
        pairs_end(item, sep, s, pair_end(item, sep, s, pos))
    } else {
        pos
    }
}

#[via_fn]
proof fn pairs_end_decreases<P: Parser, S: Parser>(item: P, sep: S, s: Seq<u8>, pos: int) {
    if pair_ok(item, sep, s, pos) {
        sep.lemma_consumed_in_range(s.skip(pos));
        let m = pos + sep.consumed(s.skip(pos));
        item.lemma_consumed_in_range(s.skip(m));
    }
}

/// The stop position of the whole run `item (separator item)*` that
/// begins at `pos`: `pos` itself when the first item fails there.
pub open spec fn separated_end<P: Parser, S: Parser>(item: P, sep: S, s: Seq<u8>, pos: int) -> int {
    if item.ok(s.skip(pos)) {
        pairs_end(item, sep, s, pos + item.consumed(s.skip(pos)))
    } else {
        pos
    }
}

/// Where the `(separator item)*` tail stops: no earlier than it began, no
/// further than the input's end, and exactly where the pair fails — the
/// run it recognizes is maximal.
pub proof fn lemma_pairs_end<P: Parser, S: Parser>(item: P, sep: S, s: Seq<u8>, pos: int)
    requires
        0 <= pos <= s.len(),
        separated_progressive(item, sep, s),
    ensures
        pos <= pairs_end(item, sep, s, pos) <= s.len(),
        !pair_ok(item, sep, s, pairs_end(item, sep, s, pos)),
    decreases s.len() - pos,
{
    if pair_ok(item, sep, s, pos) {
        sep.lemma_consumed_in_range(s.skip(pos));
        let m = pos + sep.consumed(s.skip(pos));
        item.lemma_consumed_in_range(s.skip(m));
        lemma_pairs_end(item, sep, s, pair_end(item, sep, s, pos));
    }
}

/// Walk the `(separator item)*` tail from `pos` and return its stop
/// position.
pub(crate) fn pairs_scan<P: Parser, S: Parser>(item: &P, sep: &S, s: &[u8], start: usize) -> (e:
    usize)
    requires
        start <= s@.len(),
        separated_progressive(*item, *sep, s@),
    ensures
        e == pairs_end(*item, *sep, s@, start as int),
{
    let mut pos = start;
    loop
        invariant
            pos <= s@.len(),
            separated_progressive(*item, *sep, s@),
            pairs_end(*item, *sep, s@, start as int) == pairs_end(*item, *sep, s@, pos as int),
        decreases s@.len() - pos,
    {
        let rest = slice_subrange(s, pos, s.len());
        proof {
            assert(rest@ =~= s@.skip(pos as int));
        }
        match sep.parse(rest) {
            None => {
                return pos;
            },
            Some((a, _)) => {
                proof {
                    sep.lemma_consumed_in_range(rest@);
                }
                let m = pos + a;
                let mrest = slice_subrange(s, m, s.len());
                proof {
                    assert(mrest@ =~= s@.skip(m as int));
                }
                match item.parse(mrest) {
                    None => {
                        return pos;
                    },
                    Some((n, _)) => {
                        proof {
                            assert(pair_ok(*item, *sep, s@, pos as int));
                            item.lemma_consumed_in_range(mrest@);
                        }
                        pos = m + n;
                    },
                }
            },
        }
    }
}

/// Recognize the longest prefix of the input matching
/// `item (separator item)*` and return the consumed span together with
/// the remaining input.  Never fails: zero matches is a valid outcome
/// with an empty span and the cursor unchanged.
pub fn recognize_separated0<'a, P: Parser, S: Parser>(
    item: &P,
    separator: &S,
    input: &'a [u8],
) -> (r: Result<(&'a [u8], &'a [u8]), Error>)
    requires
        separated_progressive(*item, *separator, input@),
    ensures
        r is Ok,
        r matches Ok((rem, span)) ==> ({
            let e = separated_end(*item, *separator, input@, 0);
            &&& 0 <= e <= input@.len()
            &&& rem@ == input@.skip(e)
            &&& span@ == input@.take(e)
        }),
        item.ok(input@) ==> !pair_ok(
            *item,
            *separator,
            input@,
            separated_end(*item, *separator, input@, 0),
        ),
        !item.ok(input@) ==> (r matches Ok((rem, span)) && rem@ == input@ && span@.len() == 0),
{
    proof {
        assert(input@.skip(0) =~= input@);
    }
    match item.parse(input) {
        None => {
            let span = slice_subrange(input, 0, 0);
            proof {
                assert(span@ =~= input@.take(0));
                assert(input@.skip(0) =~= input@);
            }
            Ok((input, span))
        },
        Some((n, _)) => {
            let e = pairs_scan(item, separator, input, n);
            proof {
                lemma_pairs_end(*item, *separator, input@, n as int);
            }
            let rem = slice_subrange(input, e, input.len());
            let span = slice_subrange(input, 0, e);
            proof {
                assert(rem@ =~= input@.skip(e as int));
                assert(span@ =~= input@.take(e as int));
            }
            Ok((rem, span))
        },
    }
}

/// Recognize the longest prefix of the input matching
/// `item (separator item)*` and return the consumed span together with
/// the remaining input.  Fails with `SeparatedListEmpty` exactly when the
/// first item fails at the start of the input.
pub fn recognize_separated1<'a, P: Parser, S: Parser>(
    item: &P,
    separator: &S,
    input: &'a [u8],
) -> (r: Result<(&'a [u8], &'a [u8]), Error>)
    requires
        separated_progressive(*item, *separator, input@),
    ensures
        r is Ok <==> item.ok(input@),
        r matches Ok((rem, span)) ==> ({
            let e = separated_end(*item, *separator, input@, 0);
            &&& 0 <= e <= input@.len()
            &&& rem@ == input@.skip(e)
            &&& span@ == input@.take(e)
        }),
        item.ok(input@) ==> !pair_ok(
            *item,
            *separator,
            input@,
            separated_end(*item, *separator, input@, 0),
        ),
        r matches Err(err) ==> err == (Error { pos: 0usize, code: ErrorCode::SeparatedListEmpty }),
{
    proof {
        assert(input@.skip(0) =~= input@);
    }
    match item.parse(input) {
        None => Err(Error { pos: 0, code: ErrorCode::SeparatedListEmpty }),
        Some((n, _)) => {
            let e = pairs_scan(item, separator, input, n);
            proof {
                lemma_pairs_end(*item, *separator, input@, n as int);
            }
            let rem = slice_subrange(input, e, input.len());
            let span = slice_subrange(input, 0, e);
            proof {
                assert(rem@ =~= input@.skip(e as int));
                assert(span@ =~= input@.take(e as int));
            }
            Ok((rem, span))
        },
    }
}

} // verus!
