use vstd::prelude::*;

use crate::error::Error;
use crate::parser::{consuming, Parser};
use vstd::slice::slice_subrange;

verus! {

/// The position at which the item parser is attempted by one iteration of
/// the prefix-skip scan that starts at `pos`: past the prefix when the
/// prefix matches there, and `pos` itself otherwise — a failing prefix is
/// absorbed and never blocks the item attempt.
pub open spec fn attempt_at<Q: Parser>(prefix: Q, s: Seq<u8>, pos: int) -> int {
    if prefix.ok(s.skip(pos)) {
        pos + prefix.consumed(s.skip(pos))
    } else {
        pos
    }
}

/// Wherever an item would be collected, the prefix and the item together
/// consume at least one element; the prefix-skip scan then advances
/// strictly on every collected item.
pub open spec fn take_progressive<Q: Parser, P: Parser>(prefix: Q, item: P, s: Seq<u8>) -> bool {
    forall|j: int|
        0 <= j <= s.len() && #[trigger] item.ok(s.skip(attempt_at(prefix, s, j)))
            ==> attempt_at(prefix, s, j) + item.consumed(s.skip(attempt_at(prefix, s, j))) >= j + 1
}

/// An item parser that always consumes on success keeps the prefix-skip
/// scan progressive, whatever the prefix parser does.
pub proof fn lemma_consuming_take_progressive<Q: Parser, P: Parser>(
    prefix: Q,
    item: P,
    s: Seq<u8>,
)
    requires
        consuming(item),
    ensures
        take_progressive(prefix, item, s),
{
    assert forall|j: int|
        0 <= j <= s.len() && #[trigger] item.ok(
            s.skip(attempt_at(prefix, s, j)),
        ) implies attempt_at(prefix, s, j) + item.consumed(s.skip(attempt_at(prefix, s, j))) >= j
        + 1 by {
        if prefix.ok(s.skip(j)) {
            prefix.lemma_consumed_in_range(s.skip(j));
        }
    }
}

/// One full prefix-skip scan of `s` from `pos`: skip an optional prefix,
/// attempt the item parser, collect its output and continue past it on
/// success; on the first item failure stop, with the cursor reset to the
/// position before that attempt's prefix step.  Yields the final cursor
/// position and the collected outputs in discovery order.
pub open spec fn take_scan<Q: Parser, P: Parser>(prefix: Q, item: P, s: Seq<u8>, pos: int) -> (
    int,
    Seq<Seq<u8>>,
)
    decreases s.len() - pos,
    when 0 <= pos <= s.len() && take_progressive(prefix, item, s)
    via take_scan_decreases::<Q, P>
{
    let a = attempt_at(prefix, s, pos);
    if item.ok(s.skip(a)) {
        let r = take_scan(prefix, item, s, a + item.consumed(s.skip(a)));
        (r.0, seq![item.output(s.skip(a))] + r.1)
    } else {
        (pos, Seq::empty())
    }
}

#[via_fn]
proof fn take_scan_decreases<Q: Parser, P: Parser>(prefix: Q, item: P, s: Seq<u8>, pos: int) {
    let a = attempt_at(prefix, s, pos);
    if prefix.ok(s.skip(pos)) {
        prefix.lemma_consumed_in_range(s.skip(pos));
    }
    if 0 <= a <= s.len() && item.ok(s.skip(a)) {
        item.lemma_consumed_in_range(s.skip(a));
    }
}

/// Monotonic progress of the prefix-skip scan: whenever an item is
/// collected, the scan cursor moves strictly forward.
pub proof fn lemma_take_scan_progress<Q: Parser, P: Parser>(prefix: Q, item: P, s: Seq<u8>, pos: int)
    requires
        0 <= pos <= s.len(),
        take_progressive(prefix, item, s),
        item.ok(s.skip(attempt_at(prefix, s, pos))),
    ensures
        pos < attempt_at(prefix, s, pos) + item.consumed(s.skip(attempt_at(prefix, s, pos)))
            <= s.len(),
{
    let a = attempt_at(prefix, s, pos);
    if prefix.ok(s.skip(pos)) {
        prefix.lemma_consumed_in_range(s.skip(pos));
    }
    item.lemma_consumed_in_range(s.skip(a));
}

/// Repeatedly skip an optional prefix and attempt the item parser, pushing
/// the successful outputs into the provided buffer.  Never fails: the
/// first item failure stops the scan, the cursor resting where the last
/// item was collected (or at the start, if none was).
pub fn take_all_into<'a, Q: Parser, P: Parser>(
    prefix: &Q,
    item: &P,
    input: &'a [u8],
    buffer: &mut Vec<Vec<u8>>,
) -> (r: Result<(&'a [u8], ()), Error>)
    requires
        take_progressive(*prefix, *item, input@),
    ensures
        r is Ok,
        r matches Ok((rem, u)) ==> ({
            let scan = take_scan(*prefix, *item, input@, 0);
            &&& 0 <= scan.0 <= input@.len()
            &&& rem@ == input@.skip(scan.0)
            &&& final(buffer).deep_view() == old(buffer).deep_view() + scan.1
        }),
{
    let ghost buf0 = buffer.deep_view();
    let ghost mut done = Seq::<Seq<u8>>::empty();
    let mut pos: usize = 0;
    proof {
        assert(buffer.deep_view() =~= buf0 + done);
    }
    loop
        invariant
            pos <= input@.len(),
            take_progressive(*prefix, *item, input@),
            buf0 == old(buffer).deep_view(),
            buffer.deep_view() == buf0 + done,
            take_scan(*prefix, *item, input@, 0).0 == take_scan(
                *prefix,
                *item,
                input@,
                pos as int,
            ).0,
            take_scan(*prefix, *item, input@, 0).1 == done + take_scan(
                *prefix,
                *item,
                input@,
                pos as int,
            ).1,
        decreases input@.len() - pos,
    {
        let rest = slice_subrange(input, pos, input.len());
        proof {
            assert(rest@ =~= input@.skip(pos as int));
        }
        let apos: usize = match prefix.parse(rest) {
            Some((a, _)) => {
                proof {
                    prefix.lemma_consumed_in_range(rest@);
                }
                pos + a
            },
            None => pos,
        };
        proof {
            assert(apos as int == attempt_at(*prefix, input@, pos as int));
        }
        let arest = slice_subrange(input, apos, input.len());
        proof {
            assert(arest@ =~= input@.skip(apos as int));
        }
        match item.parse(arest) {
            Some((n, out)) => {
                proof {
                    lemma_take_scan_progress(*prefix, *item, input@, pos as int);
                }
                let ghost prev = buffer.deep_view();
                buffer.push(out);
                proof {
                    assert(buffer.deep_view() =~~= prev + seq![out@]);
                    assert(buf0 + (done + seq![out@]) =~= (buf0 + done) + seq![out@]);
                    let tail = take_scan(*prefix, *item, input@, apos + n);
                    assert((done + seq![out@]) + tail.1 =~= done + (seq![out@] + tail.1));
                    done = done + seq![out@];
                }
                pos = apos + n;
            },
            None => {
                let rem = slice_subrange(input, pos, input.len());
                proof {
                    assert(rem@ =~= input@.skip(pos as int));
                    assert(done + Seq::<Seq<u8>>::empty() =~= done);
                }
                return Ok((rem, ()));
            },
        }
    }
}

/// Repeatedly skip an optional prefix and attempt the item parser,
/// collecting the outputs.  Never fails: exhausting the matches is success
/// with a possibly empty collection.
pub fn take_all<'a, Q: Parser, P: Parser>(prefix: &Q, item: &P, input: &'a [u8]) -> (r: Result<
    (&'a [u8], Vec<Vec<u8>>),
    Error,
>)
    requires
        take_progressive(*prefix, *item, input@),
    ensures
        r is Ok,
        r matches Ok((rem, outs)) ==> ({
            let scan = take_scan(*prefix, *item, input@, 0);
            &&& 0 <= scan.0 <= input@.len()
            &&& rem@ == input@.skip(scan.0)
            &&& outs.deep_view() == scan.1
        }),
{
    let mut buffer: Vec<Vec<u8>> = Vec::new();
    proof {
        assert(buffer.deep_view() =~= Seq::<Seq<u8>>::empty());
    }
    match take_all_into(prefix, item, input, &mut buffer) {
        Ok((rem, _)) => {
            proof {
                assert(Seq::<Seq<u8>>::empty() + take_scan(*prefix, *item, input@, 0).1 =~= take_scan(
                    *prefix,
                    *item,
                    input@,
                    0,
                ).1);
            }
            Ok((rem, buffer))
        },
        Err(e) => Err(e),
    }
}

} // verus!
