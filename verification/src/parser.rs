use vstd::prelude::*;

verus! {

/// The parser abstraction shared by every combinator in this crate.
///
/// A parser examines the remaining input `rest` (a cursor positioned at the
/// start of `rest`) and either succeeds, consuming a prefix of `rest` and
/// producing an output value, or fails recoverably without consuming
/// anything.  The three spec functions describe the parser's behaviour on
/// the remaining input alone, so a parser behaves the same wherever in a
/// larger input it is run.
pub trait Parser: Sized {
    /// Whether the parser succeeds on the remaining input `rest`.
    spec fn ok(&self, rest: Seq<u8>) -> bool;

    /// How many leading elements of `rest` a successful parse consumes.
    spec fn consumed(&self, rest: Seq<u8>) -> int;

    /// The output value of a successful parse.
    spec fn output(&self, rest: Seq<u8>) -> Seq<u8>;

    /// A successful parse consumes between zero elements and all of `rest`.
    proof fn lemma_consumed_in_range(&self, rest: Seq<u8>)
        requires
            self.ok(rest),
        ensures
            0 <= self.consumed(rest) <= rest.len(),
    ;

    /// Run the parser at the start of `rest`: `Some((n, out))` on success,
    /// where `n` is the number of elements consumed and `out` the output,
    /// `None` on a recoverable failure.
    fn parse(&self, rest: &[u8]) -> (r: Option<(usize, Vec<u8>)>)
        ensures
            r is Some <==> self.ok(rest@),
            r matches Some((n, out)) ==> {
                &&& n == self.consumed(rest@)
                &&& out@ == self.output(rest@)
                &&& n <= rest@.len()
            },
    ;
}

/// The parser consumes at least one element wherever it succeeds.  A
/// combinator that repeats such a parser makes progress on every match.
pub open spec fn consuming<P: Parser>(p: P) -> bool {
    forall|rest: Seq<u8>| #[trigger] p.ok(rest) ==> p.consumed(rest) >= 1
}

} // verus!
