use vstd::prelude::*;

use crate::error::{Error, ErrorCode};
use crate::parser::{consuming, Parser};
use crate::search::{find_at, find_from, is_match_at, lemma_find_at};
use vstd::slice::slice_subrange;

verus! {

/// Wherever the item parser succeeds at a marker occurrence in `s`, it
/// consumes at least one element.  The marker scan then advances strictly
/// on every iteration, whether the item parse succeeds or fails.
pub open spec fn find_progressive<P: Parser>(p: P, marker: Seq<u8>, s: Seq<u8>) -> bool {
    forall|i: int|
        is_match_at(s, marker, i) && #[trigger] p.ok(s.skip(i)) ==> p.consumed(s.skip(i)) >= 1
}

/// An item parser that always consumes on success is progressive on every
/// input and marker.
pub proof fn lemma_consuming_find_progressive<P: Parser>(p: P, marker: Seq<u8>, s: Seq<u8>)
    requires
        consuming(p),
    ensures
        find_progressive(p, marker, s),
{
    assert forall|i: int|
        is_match_at(s, marker, i) && #[trigger] p.ok(s.skip(i)) implies p.consumed(s.skip(i))
        >= 1 by {}
}

/// One full marker scan of `s` from `pos`: repeatedly look for the next
/// marker occurrence and attempt the item parser there; collect the output
/// on success, skip one marker length on failure.  Yields the final cursor
/// position and the collected outputs in discovery order.
pub open spec fn find_scan<P: Parser>(p: P, marker: Seq<u8>, s: Seq<u8>, pos: int) -> (
    int,
    Seq<Seq<u8>>,
)
    decreases s.len() - pos,
    when 0 <= pos <= s.len() && marker.len() >= 1 && find_progressive(p, marker, s)
    via find_scan_decreases::<P>
{
    match find_at(s, marker, pos) {
        None => (pos, Seq::empty()),
        Some(i) => if p.ok(s.skip(i)) {
            let r = find_scan(p, marker, s, i + p.consumed(s.skip(i)));
            (r.0, seq![p.output(s.skip(i))] + r.1)
        } else {
            find_scan(p, marker, s, i + marker.len())
        },
    }
}

#[via_fn]
proof fn find_scan_decreases<P: Parser>(p: P, marker: Seq<u8>, s: Seq<u8>, pos: int) {
    lemma_find_at(s, marker, pos);
    match find_at(s, marker, pos) {
        None => {},
        Some(i) => {
            if p.ok(s.skip(i)) {
                p.lemma_consumed_in_range(s.skip(i));
            }
        },
    }
}

/// The first successful item parse at a marker occurrence, scanning from
/// `pos`: `Ok` holds the end position of the parsed item and its output,
/// `Err` the position at which the search for the marker was exhausted.
pub open spec fn find_first_scan<P: Parser>(p: P, marker: Seq<u8>, s: Seq<u8>, pos: int) -> Result<
    (int, Seq<u8>),
    int,
>
    decreases s.len() - pos,
    when 0 <= pos <= s.len() && marker.len() >= 1
    via find_first_scan_decreases::<P>
{
    match find_at(s, marker, pos) {
        None => Err(pos),
        Some(i) => if p.ok(s.skip(i)) {
            Ok((i + p.consumed(s.skip(i)), p.output(s.skip(i))))
        } else {
            find_first_scan(p, marker, s, i + marker.len())
        },
    }
}

#[via_fn]
proof fn find_first_scan_decreases<P: Parser>(p: P, marker: Seq<u8>, s: Seq<u8>, pos: int) {
    lemma_find_at(s, marker, pos);
}

/// Monotonic progress of the marker scan: at a position where the marker
/// still occurs, one iteration — whether the item parse at the occurrence
/// succeeds or fails — moves the scan cursor strictly forward.
pub proof fn lemma_find_scan_progress<P: Parser>(
    p: P,
    marker: Seq<u8>,
    s: Seq<u8>,
    pos: int,
    i: int,
)
    requires
        0 <= pos <= s.len(),
        marker.len() >= 1,
        find_progressive(p, marker, s),
        find_at(s, marker, pos) == Some(i),
    ensures
        p.ok(s.skip(i)) ==> pos < i + p.consumed(s.skip(i)) <= s.len(),
        !p.ok(s.skip(i)) ==> pos < i + marker.len() <= s.len(),
{
    lemma_find_at(s, marker, pos);
    if p.ok(s.skip(i)) {
        p.lemma_consumed_in_range(s.skip(i));
    }
}

/// Run the item parser at each marker occurrence in turn until it first
/// succeeds; return that item's output and the input remaining after it.
/// Fails with `NotFound` when the marker occurrences are exhausted first.
pub fn find_first<'a, P: Parser>(marker: &[u8], item: &P, input: &'a [u8]) -> (r: Result<
    (&'a [u8], Vec<u8>),
    Error,
>)
    requires
        marker@.len() >= 1,
    ensures
        match find_first_scan(*item, marker@, input@, 0) {
            Ok((e, out)) => {
                &&& r matches Ok((rem, v))
                &&& 0 <= e <= input@.len()
                &&& rem@ == input@.skip(e)
                &&& v@ == out
            },
            Err(e) => {
                &&& 0 <= e <= input@.len()
                &&& r == Err::<(&'a [u8], Vec<u8>), Error>(
                    Error { pos: e as usize, code: ErrorCode::NotFound },
                )
            },
        },
        find_at(input@, marker@, 0) is None ==> r == Err::<(&'a [u8], Vec<u8>), Error>(
            Error { pos: 0, code: ErrorCode::NotFound },
        ),
{
    let mut pos: usize = 0;
    loop
        invariant
            pos <= input@.len(),
            marker@.len() >= 1,
            find_first_scan(*item, marker@, input@, 0) == find_first_scan(
                *item,
                marker@,
                input@,
                pos as int,
            ),
        decreases input@.len() - pos,
    {
        match find_from(input, pos, marker) {
            None => {
                return Err(Error { pos, code: ErrorCode::NotFound });
            },
            Some(i) => {
                let at = slice_subrange(input, i, input.len());
                proof {
                    assert(at@ =~= input@.skip(i as int));
                }
                match item.parse(at) {
                    Some((n, out)) => {
                        let rem = slice_subrange(input, i + n, input.len());
                        proof {
                            assert(rem@ =~= input@.skip(i + n));
                        }
                        return Ok((rem, out));
                    },
                    None => {
                        pos = i + marker.len();
                    },
                }
            },
        }
    }
}

/// Run the item parser at each marker occurrence, pushing the successful
/// outputs into the provided buffer; on an item failure skip one marker
/// length and keep searching.  Never fails: exhausting the marker
/// occurrences is success.
pub fn find_all_into<'a, P: Parser>(
    marker: &[u8],
    item: &P,
    input: &'a [u8],
    buffer: &mut Vec<Vec<u8>>,
) -> (r: Result<(&'a [u8], ()), Error>)
    requires
        marker@.len() >= 1,
        find_progressive(*item, marker@, input@),
    ensures
        r is Ok,
        r matches Ok((rem, u)) ==> ({
            let scan = find_scan(*item, marker@, input@, 0);
            &&& 0 <= scan.0 <= input@.len()
            &&& rem@ == input@.skip(scan.0)
            &&& final(buffer).deep_view() == old(buffer).deep_view() + scan.1
        }),
        find_at(input@, marker@, 0) is None ==> (r matches Ok((rem, u)) && rem@ == input@
            && final(buffer).deep_view() == old(buffer).deep_view()),
{
    let ghost buf0 = buffer.deep_view();
    let ghost mut done = Seq::<Seq<u8>>::empty();
    let mut pos: usize = 0;
    proof {
        assert(buffer.deep_view() =~= buf0 + done);
    }
    loop
        invariant
            pos <= input@.len(),
            marker@.len() >= 1,
            find_progressive(*item, marker@, input@),
            buf0 == old(buffer).deep_view(),
            buffer.deep_view() == buf0 + done,
            find_scan(*item, marker@, input@, 0).0 == find_scan(
                *item,
                marker@,
                input@,
                pos as int,
            ).0,
            find_scan(*item, marker@, input@, 0).1 == done + find_scan(
                *item,
                marker@,
                input@,
                pos as int,
            ).1,
        decreases input@.len() - pos,
    {
        match find_from(input, pos, marker) {
            None => {
                let rem = slice_subrange(input, pos, input.len());
                proof {
                    assert(rem@ =~= input@.skip(pos as int));
                    assert(done + Seq::<Seq<u8>>::empty() =~= done);
                    if find_at(input@, marker@, 0) is None {
                        assert(done =~= Seq::<Seq<u8>>::empty());
                        assert(buf0 + done =~= buf0);
                    }
                }
                return Ok((rem, ()));
            },
            Some(i) => {
                let at = slice_subrange(input, i, input.len());
                proof {
                    assert(at@ =~= input@.skip(i as int));
                }
                match item.parse(at) {
                    Some((n, out)) => {
                        proof {
                            lemma_find_scan_progress(*item, marker@, input@, pos as int, i as int);
                        }
                        let ghost prev = buffer.deep_view();
                        buffer.push(out);
                        proof {
                            assert(buffer.deep_view() =~~= prev + seq![out@]);
                            assert(buf0 + (done + seq![out@]) =~= (buf0 + done) + seq![out@]);
                            let tail = find_scan(*item, marker@, input@, i + n);
                            assert((done + seq![out@]) + tail.1 =~= done + (seq![out@] + tail.1));
                            done = done + seq![out@];
                        }
                        pos = i + n;
                    },
                    None => {
                        pos = i + marker.len();
                    },
                }
            },
        }
    }
}

/// Run the item parser at each marker occurrence and collect the outputs.
/// Never fails: an input without a marker occurrence yields the original
/// cursor and an empty collection.
pub fn find_all<'a, P: Parser>(marker: &[u8], item: &P, input: &'a [u8]) -> (r: Result<
    (&'a [u8], Vec<Vec<u8>>),
    Error,
>)
    requires
        marker@.len() >= 1,
        find_progressive(*item, marker@, input@),
    ensures
        r is Ok,
        r matches Ok((rem, outs)) ==> ({
            let scan = find_scan(*item, marker@, input@, 0);
            &&& 0 <= scan.0 <= input@.len()
            &&& rem@ == input@.skip(scan.0)
            &&& outs.deep_view() == scan.1
        }),
        find_at(input@, marker@, 0) is None ==> (r matches Ok((rem, outs)) && rem@ == input@
            && outs@.len() == 0),
{
    let mut buffer: Vec<Vec<u8>> = Vec::new();
    proof {
        assert(buffer.deep_view() =~= Seq::<Seq<u8>>::empty());
    }
    match find_all_into(marker, item, input, &mut buffer) {
        Ok((rem, _)) => {
            proof {
                assert(Seq::<Seq<u8>>::empty() + find_scan(*item, marker@, input@, 0).1 =~= find_scan(
                    *item,
                    marker@,
                    input@,
                    0,
                ).1);
            }
            Ok((rem, buffer))
        },
        Err(e) => Err(e),
    }
}

} // verus!
