use vstd::prelude::*;

use crate::parser::{consuming, Parser};
use vstd::slice::slice_subrange;

verus! {

/// Runs three parsers in sequence and yields the middle one's output:
/// the outer pair delimits the value of interest.
pub struct Delimited<A: Parser, B: Parser, C: Parser> {
    pub first: A,
    pub second: B,
    pub third: C,
}

impl<A: Parser, B: Parser, C: Parser> Parser for Delimited<A, B, C> {
    open spec fn ok(&self, rest: Seq<u8>) -> bool {
        let a = self.first.consumed(rest);
        let b = self.second.consumed(rest.skip(a));
        &&& self.first.ok(rest)
        &&& self.second.ok(rest.skip(a))
        &&& self.third.ok(rest.skip(a + b))
    }

    open spec fn consumed(&self, rest: Seq<u8>) -> int {
        let a = self.first.consumed(rest);
        let b = self.second.consumed(rest.skip(a));
        let c = self.third.consumed(rest.skip(a + b));
        a + b + c
    }

    open spec fn output(&self, rest: Seq<u8>) -> Seq<u8> {
        self.second.output(rest.skip(self.first.consumed(rest)))
    }

    proof fn lemma_consumed_in_range(&self, rest: Seq<u8>) {
        self.first.lemma_consumed_in_range(rest);
        let a = self.first.consumed(rest);
        self.second.lemma_consumed_in_range(rest.skip(a));
        let b = self.second.consumed(rest.skip(a));
        self.third.lemma_consumed_in_range(rest.skip(a + b));
    }

    fn parse(&self, rest: &[u8]) -> (r: Option<(usize, Vec<u8>)>) {
        match self.first.parse(rest) {
            None => None,
            Some((a, _)) => {
                let rest1 = slice_subrange(rest, a, rest.len());
                proof {
                    assert(rest1@ =~= rest@.skip(a as int));
                }
                match self.second.parse(rest1) {
                    None => None,
                    Some((b, out)) => {
                        let rest2 = slice_subrange(rest, a + b, rest.len());
                        proof {
                            assert(rest2@ =~= rest@.skip(a as int + b as int));
                        }
                        match self.third.parse(rest2) {
                            None => None,
                            Some((c, _)) => Some((a + b + c, out)),
                        }
                    },
                }
            },
        }
    }
}

/// A `Delimited` whose opening parser always consumes on success is
/// itself always consuming.
pub proof fn lemma_delimited_consuming<A: Parser, B: Parser, C: Parser>(p: Delimited<A, B, C>)
    requires
        consuming(p.first),
    ensures
        consuming(p),
{
    assert forall|rest: Seq<u8>| #[trigger] p.ok(rest) implies p.consumed(rest) >= 1 by {
        p.first.lemma_consumed_in_range(rest);
        let a = p.first.consumed(rest);
        p.second.lemma_consumed_in_range(rest.skip(a));
        let b = p.second.consumed(rest.skip(a));
        p.third.lemma_consumed_in_range(rest.skip(a + b));
    }
}

/// Runs two parsers in sequence and yields the second one's output: the
/// first is a required lead-in whose own output is dropped.
pub struct Preceded<A: Parser, B: Parser> {
    pub first: A,
    pub second: B,
}

impl<A: Parser, B: Parser> Parser for Preceded<A, B> {
    open spec fn ok(&self, rest: Seq<u8>) -> bool {
        self.first.ok(rest) && self.second.ok(rest.skip(self.first.consumed(rest)))
    }

    open spec fn consumed(&self, rest: Seq<u8>) -> int {
        let a = self.first.consumed(rest);
        a + self.second.consumed(rest.skip(a))
    }

    open spec fn output(&self, rest: Seq<u8>) -> Seq<u8> {
        self.second.output(rest.skip(self.first.consumed(rest)))
    }

    proof fn lemma_consumed_in_range(&self, rest: Seq<u8>) {
        self.first.lemma_consumed_in_range(rest);
        let a = self.first.consumed(rest);
        self.second.lemma_consumed_in_range(rest.skip(a));
    }

    fn parse(&self, rest: &[u8]) -> (r: Option<(usize, Vec<u8>)>) {
        match self.first.parse(rest) {
            None => None,
            Some((a, _)) => {
                let rest1 = slice_subrange(rest, a, rest.len());
                proof {
                    assert(rest1@ =~= rest@.skip(a as int));
                }
                match self.second.parse(rest1) {
                    None => None,
                    Some((b, out)) => Some((a + b, out)),
                }
            },
        }
    }
}

/// A `Preceded` whose lead-in always consumes on success is itself always
/// consuming.
pub proof fn lemma_preceded_consuming<A: Parser, B: Parser>(p: Preceded<A, B>)
    requires
        consuming(p.first),
    ensures
        consuming(p),
{
    assert forall|rest: Seq<u8>| #[trigger] p.ok(rest) implies p.consumed(rest) >= 1 by {
        p.first.lemma_consumed_in_range(rest);
        let a = p.first.consumed(rest);
        p.second.lemma_consumed_in_range(rest.skip(a));
    }
}

} // verus!
