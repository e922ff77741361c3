use vstd::prelude::*;

use crate::error::{Error, ErrorCode};
use crate::parser::{consuming, Parser};
use crate::search::{copy_range, is_match_at, starts_with};
use vstd::slice::slice_subrange;

verus! {

/// The byte value of `a`.
pub const LOWER_A: u8 = 97;

/// The byte value of `z`.
pub const LOWER_Z: u8 = 122;

/// The byte value of `A`.
pub const UPPER_A: u8 = 65;

/// The byte value of `Z`.
pub const UPPER_Z: u8 = 90;

/// The byte value of `0`.
pub const DIGIT_ZERO: u8 = 48;

/// The byte value of `9`.
pub const DIGIT_NINE: u8 = 57;

/// The byte value of `.`.
pub const DOT: u8 = 46;

/// The byte value of `-`.
pub const DASH: u8 = 45;

/// The byte value of `_`.
pub const UNDERSCORE: u8 = 95;

/// A class of bytes, used by the single-character-class scanners.
#[derive(Debug)]
pub enum ByteClass {
    /// Bytes that occur in the given set.
    InSet(Vec<u8>),
    /// Bytes that do not occur in the given set.
    NotInSet(Vec<u8>),
    /// ASCII letters and digits.
    Alphanumeric,
    /// ASCII letters, digits, and the dot.
    AlphanumericDot,
    /// Bytes allowed in a segment of a web link: ASCII letters and digits,
    /// `-`, `_` and `.`.
    Link,
    /// Exactly the given byte.
    Byte(u8),
}

/// ASCII letters and digits.
pub open spec fn spec_alphanumeric(b: u8) -> bool {
    (LOWER_A <= b <= LOWER_Z) || (UPPER_A <= b <= UPPER_Z) || (DIGIT_ZERO <= b <= DIGIT_NINE)
}

/// Whether the byte `b` belongs to the class `c`.
pub open spec fn class_has(c: ByteClass, b: u8) -> bool {
    match c {
        ByteClass::InSet(set) => set@.contains(b),
        ByteClass::NotInSet(set) => !set@.contains(b),
        ByteClass::Alphanumeric => spec_alphanumeric(b),
        ByteClass::AlphanumericDot => spec_alphanumeric(b) || b == DOT,
        ByteClass::Link => spec_alphanumeric(b) || b == DASH || b == UNDERSCORE || b == DOT,
        ByteClass::Byte(x) => b == x,
    }
}

/// The length of the longest prefix of `rest` made of bytes of the class.
pub open spec fn run_len(c: ByteClass, rest: Seq<u8>) -> int
    decreases rest.len(),
{
    if rest.len() > 0 && class_has(c, rest[0]) {
        1 + run_len(c, rest.skip(1))
    } else {
        0
    }
}

/// The run is the maximal prefix of bytes of the class: every byte before
/// its end is in the class, and the byte at its end (if any) is not.
pub proof fn lemma_run_len(c: ByteClass, rest: Seq<u8>)
    ensures
        0 <= run_len(c, rest) <= rest.len(),
        forall|k: int| 0 <= k < run_len(c, rest) ==> class_has(c, #[trigger] rest[k]),
        run_len(c, rest) < rest.len() ==> !class_has(c, rest[run_len(c, rest)]),
    decreases rest.len(),
{
    if rest.len() > 0 && class_has(c, rest[0]) {
        lemma_run_len(c, rest.skip(1));
        assert forall|k: int| 0 <= k < run_len(c, rest) implies class_has(c, #[trigger] rest[k]) by {
            if k >= 1 {
                assert(rest[k] == rest.skip(1)[k - 1]);
            }
        }
        if run_len(c, rest) < rest.len() {
            assert(rest[run_len(c, rest)] == rest.skip(1)[run_len(c, rest) - 1]);
        }
    }
}

fn alphanumeric(b: u8) -> (r: bool)
    ensures
        r == spec_alphanumeric(b),
{
    (LOWER_A <= b && b <= LOWER_Z) || (UPPER_A <= b && b <= UPPER_Z) || (DIGIT_ZERO <= b
        && b <= DIGIT_NINE)
}

fn set_contains(set: &Vec<u8>, b: u8) -> (r: bool)
    ensures
        r == set@.contains(b),
{
    let mut k: usize = 0;
    while k < set.len()
        invariant
            k <= set@.len(),
            forall|t: int| 0 <= t < k ==> set@[t] != b,
        decreases set@.len() - k,
    {
        if set[k] == b {
            return true;
        }
        k += 1;
    }
    false
}

/// Whether the byte `b` belongs to the class `c`.
pub fn class_matches(c: &ByteClass, b: u8) -> (r: bool)
    ensures
        r == class_has(*c, b),
{
    match c {
        ByteClass::InSet(set) => set_contains(set, b),
        ByteClass::NotInSet(set) => !set_contains(set, b),
        ByteClass::Alphanumeric => alphanumeric(b),
        ByteClass::AlphanumericDot => alphanumeric(b) || b == DOT,
        ByteClass::Link => alphanumeric(b) || b == DASH || b == UNDERSCORE || b == DOT,
        ByteClass::Byte(x) => b == *x,
    }
}

/// The length of the longest prefix of `rest` made of bytes of the class.
pub fn run_length(c: &ByteClass, rest: &[u8]) -> (n: usize)
    ensures
        n == run_len(*c, rest@),
{
    proof {
        assert(rest@.skip(0) =~= rest@);
    }
    let mut n: usize = 0;
    while n < rest.len() && class_matches(c, rest[n])
        invariant
            n <= rest@.len(),
            run_len(*c, rest@) == n + run_len(*c, rest@.skip(n as int)),
        decreases rest@.len() - n,
    {
        proof {
            assert(rest@.skip(n as int)[0] == rest@[n as int]);
            assert(rest@.skip(n as int).skip(1) =~= rest@.skip(n as int + 1));
        }
        n += 1;
    }
    proof {
        lemma_run_len(*c, rest@.skip(n as int));
        if n < rest@.len() {
            assert(rest@.skip(n as int)[0] == rest@[n as int]);
        }
    }
    n
}

/// Matches the longest, possibly empty, run of leading bytes of the class;
/// never fails.
pub struct CharRun0 {
    pub class: ByteClass,
}

impl Parser for CharRun0 {
    open spec fn ok(&self, rest: Seq<u8>) -> bool {
        true
    }

    open spec fn consumed(&self, rest: Seq<u8>) -> int {
        run_len(self.class, rest)
    }

    open spec fn output(&self, rest: Seq<u8>) -> Seq<u8> {
        rest.take(run_len(self.class, rest))
    }

    proof fn lemma_consumed_in_range(&self, rest: Seq<u8>) {
        lemma_run_len(self.class, rest);
    }

    fn parse(&self, rest: &[u8]) -> (r: Option<(usize, Vec<u8>)>) {
        proof {
            lemma_run_len(self.class, rest@);
        }
        let n = run_length(&self.class, rest);
        Some((n, copy_range(rest, 0, n)))
    }
}

/// Matches the longest run of leading bytes of the class; fails when the
/// input does not begin with a byte of the class.
pub struct CharRun1 {
    pub class: ByteClass,
}

impl Parser for CharRun1 {
    open spec fn ok(&self, rest: Seq<u8>) -> bool {
        rest.len() > 0 && class_has(self.class, rest[0])
    }

    open spec fn consumed(&self, rest: Seq<u8>) -> int {
        run_len(self.class, rest)
    }

    open spec fn output(&self, rest: Seq<u8>) -> Seq<u8> {
        rest.take(run_len(self.class, rest))
    }

    proof fn lemma_consumed_in_range(&self, rest: Seq<u8>) {
        lemma_run_len(self.class, rest);
    }

    fn parse(&self, rest: &[u8]) -> (r: Option<(usize, Vec<u8>)>) {
        proof {
            lemma_run_len(self.class, rest@);
        }
        let n = run_length(&self.class, rest);
        if n == 0 {
            None
        } else {
            Some((n, copy_range(rest, 0, n)))
        }
    }
}

/// A successful `CharRun1` always consumes at least one byte.
pub proof fn lemma_char_run1_consuming(c: ByteClass)
    ensures
        consuming(CharRun1 { class: c }),
{
    let p = CharRun1 { class: c };
    assert forall|rest: Seq<u8>| #[trigger] p.ok(rest) implies p.consumed(rest) >= 1 by {
        lemma_run_len(c, rest);
    }
}

/// Matches exactly one byte of the class.
pub struct OneIn {
    pub class: ByteClass,
}

impl Parser for OneIn {
    open spec fn ok(&self, rest: Seq<u8>) -> bool {
        rest.len() > 0 && class_has(self.class, rest[0])
    }

    open spec fn consumed(&self, rest: Seq<u8>) -> int {
        1
    }

    open spec fn output(&self, rest: Seq<u8>) -> Seq<u8> {
        rest.take(1)
    }

    proof fn lemma_consumed_in_range(&self, rest: Seq<u8>) {
    }

    fn parse(&self, rest: &[u8]) -> (r: Option<(usize, Vec<u8>)>) {
        if rest.len() > 0 && class_matches(&self.class, rest[0]) {
            Some((1, copy_range(rest, 0, 1)))
        } else {
            None
        }
    }
}

/// A successful `OneIn` always consumes one byte.
pub proof fn lemma_one_in_consuming(c: ByteClass)
    ensures
        consuming(OneIn { class: c }),
{
}

/// Matches the literal byte pattern `pat` at the start of the input.
pub struct Tag {
    pub pat: Vec<u8>,
}

impl Parser for Tag {
    open spec fn ok(&self, rest: Seq<u8>) -> bool {
        is_match_at(rest, self.pat@, 0)
    }

    open spec fn consumed(&self, rest: Seq<u8>) -> int {
        self.pat@.len() as int
    }

    open spec fn output(&self, rest: Seq<u8>) -> Seq<u8> {
        self.pat@
    }

    proof fn lemma_consumed_in_range(&self, rest: Seq<u8>) {
    }

    fn parse(&self, rest: &[u8]) -> (r: Option<(usize, Vec<u8>)>) {
        if starts_with(rest, self.pat.as_slice()) {
            let n = self.pat.len();
            let out = copy_range(rest, 0, n);
            proof {
                assert(rest@.subrange(0, n as int) == self.pat@);
            }
            Some((n, out))
        } else {
            None
        }
    }
}

/// A `Tag` with a nonempty pattern always consumes at least one byte.
pub proof fn lemma_tag_consuming(t: Tag)
    requires
        t.pat@.len() >= 1,
    ensures
        consuming(t),
{
}

/// Split off the longest, possibly empty, leading run of ASCII letters,
/// digits and dots; never fails.
pub fn alphanumdot0<'a>(input: &'a [u8]) -> (r: Result<(&'a [u8], &'a [u8]), Error>)
    ensures
        r is Ok,
        r matches Ok((rem, out)) ==> ({
            let n = run_len(ByteClass::AlphanumericDot, input@);
            rem@ == input@.skip(n) && out@ == input@.take(n)
        }),
{
    let n = run_length(&ByteClass::AlphanumericDot, input);
    proof {
        lemma_run_len(ByteClass::AlphanumericDot, input@);
    }
    Ok((slice_subrange(input, n, input.len()), slice_subrange(input, 0, n)))
}

/// Split off the longest leading run of ASCII letters, digits and dots;
/// fails when that run is empty.
pub fn alphanumdot1<'a>(input: &'a [u8]) -> (r: Result<(&'a [u8], &'a [u8]), Error>)
    ensures
        r is Ok <==> run_len(ByteClass::AlphanumericDot, input@) >= 1,
        r matches Ok((rem, out)) ==> ({
            let n = run_len(ByteClass::AlphanumericDot, input@);
            rem@ == input@.skip(n) && out@ == input@.take(n)
        }),
        r matches Err(e) ==> e == (Error { pos: 0usize, code: ErrorCode::ItemFailed }),
{
    let n = run_length(&ByteClass::AlphanumericDot, input);
    proof {
        lemma_run_len(ByteClass::AlphanumericDot, input@);
    }
    if n == 0 {
        Err(Error { pos: 0, code: ErrorCode::ItemFailed })
    } else {
        Ok((slice_subrange(input, n, input.len()), slice_subrange(input, 0, n)))
    }
}

} // verus!
