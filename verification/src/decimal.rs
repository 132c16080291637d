//! Decimal numbers kept as the literal that wrote them, so that nothing is
//! rounded.

use vstd::prelude::*;
use vstd::string::StringSliceAdditionalSpecFns;
use crate::json::grammar::{is_number_literal, number_end};
use crate::json::lemmas::lemma_number_in_range;
use crate::json::scanner::scan_number;

verus! {

/// A number, held as its literal: an optional minus sign, an integer part
/// without needless zeros, an optional fraction, an optional exponent.
#[derive(Debug, PartialEq, Eq)]
pub struct Decimal {
    literal: Vec<u8>,
}

impl View for Decimal {
    type V = Seq<u8>;

    closed spec fn view(&self) -> Seq<u8> {
        self.literal@
    }
}

/// The characters of a text that is all ASCII.
pub open spec fn ascii_chars(bytes: Seq<u8>) -> Seq<char> {
    Seq::new(bytes.len(), |i: int| bytes[i] as char)
}

impl Decimal {
    #[verifier::type_invariant]
    spec fn well_formed(self) -> bool {
        is_number_literal(self.literal@)
    }

    /// The number that `bytes` write, if they write one and nothing else.
    pub fn from_bytes(bytes: &[u8]) -> (made: Option<Decimal>)
        ensures
            made is Some <==> is_number_literal(bytes@),
            made matches Some(d) ==> d@ == bytes@,
    {
        match scan_number(bytes, 0) {
            Some(end) => {
                if end == bytes.len() {
                    let literal = copy_of(bytes, 0, end);
                    assert(literal@ =~= bytes@);
                    Some(Decimal { literal })
                } else {
                    None
                }
            },
            None => None,
        }
    }

    /// The number that `text` writes, if it writes one and nothing else.
    pub fn parse(text: &str) -> (made: Option<Decimal>)
        ensures
            made is Some <==> is_number_literal(text.spec_bytes()),
            made matches Some(d) ==> d@ == text.spec_bytes(),
    {
        Decimal::from_bytes(text.as_bytes())
    }

    /// The number that stands in `bytes` from `from` up to `to`.
    pub(crate) fn from_range(bytes: &[u8], from: usize, to: usize) -> (made: Decimal)
        requires
            from <= bytes.len(),
            number_end(bytes@, from as int) == Some(to as int),
        ensures
            made@ == bytes@.subrange(from as int, to as int),
    {
        proof {
            lemma_number_in_range(bytes@, from as int);
        }
        Decimal { literal: copy_of(bytes, from, to) }
    }

    /// The bytes of the literal.
    pub fn as_bytes(&self) -> (bytes: &[u8])
        ensures
            bytes@ == self@,
            is_number_literal(self@),
    {
        proof {
            use_type_invariant(self);
        }
        self.literal.as_slice()
    }

    /// The literal as text.
    pub fn text(&self) -> (text: String)
        ensures
            text@ == ascii_chars(self@),
    {
        let mut text = String::new();
        let mut k: usize = 0;
        while k < self.literal.len()
            invariant
                k <= self.literal.len(),
                text@ == ascii_chars(self.literal@.subrange(0, k as int)),
            decreases self.literal.len() - k,
        {
            text.push(self.literal[k] as char);
            k += 1;
            assert(text@ =~= ascii_chars(self.literal@.subrange(0, k as int)));
        }
        assert(self.literal@.subrange(0, k as int) =~= self.literal@);
        text
    }
}

impl Clone for Decimal {
    fn clone(&self) -> (copy: Self)
        ensures
            copy@ == self@,
    {
        proof {
            use_type_invariant(self);
        }
        let literal = copy_of(self.literal.as_slice(), 0, self.literal.len());
        assert(literal@ =~= self.literal@);
        Decimal { literal }
    }
}

/// The bytes of `bytes` from `from` up to `to`.
pub(crate) fn copy_of(bytes: &[u8], from: usize, to: usize) -> (copy: Vec<u8>)
    requires
        from <= to <= bytes.len(),
    ensures
        copy@ == bytes@.subrange(from as int, to as int),
{
    let mut copy: Vec<u8> = Vec::new();
    let mut k: usize = from;
    while k < to
        invariant
            from <= k <= to <= bytes.len(),
            copy@ == bytes@.subrange(from as int, k as int),
        decreases to - k,
    {
        copy.push(bytes[k]);
        k += 1;
        assert(copy@ =~= bytes@.subrange(from as int, k as int));
    }
    copy
}

/// `String::push` appends the character to the end of the string.
pub assume_specification[ String::push ](s: &mut String, c: char)
    ensures
        final(s)@ == old(s)@.push(c),
;

} // verus!
