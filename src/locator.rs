//! The character classifier: urlocator's streaming URL parser, seen from the library.

use vstd::prelude::*;
use urlocator::{UrlLocation, UrlLocator};

verus! {

#[verifier::external_type_specification]
#[verifier::external_body]
pub struct ExUrlLocator(UrlLocator);

/// What the classifier reports after a character.
#[derive(Clone, Copy, Debug, PartialEq, Eq, Structural)]
pub enum Location {
    /// The character ends a URL: its length, and how many trailing cells are not part of it.
    Url(u16, u16),
    /// The characters so far may be a URL scheme.
    Scheme,
    /// The character broke the candidate; the parser starts over.
    Reset,
}

/// The parser value that a new urlocator parser becomes after being fed exactly `s`.
pub uninterp spec fn locator_after(s: Seq<char>) -> UrlLocator;

/// What urlocator's parser reports after being fed exactly `s` from its creation.
pub uninterp spec fn location_after(s: Seq<char>) -> Location;

/// How many times `c` occurs in `s`.
pub open spec fn count_char(s: Seq<char>, c: char) -> nat
    decreases s.len(),
{
    if s.len() == 0 {
        0
    } else {
        count_char(s.drop_last(), c) + if s.last() == c {
            1nat
        } else {
            0nat
        }
    }
}

/// Inputs on which one more character cannot overflow the parser's counters: its
/// length counter is a `u16` and its open-parenthesis and open-bracket counters are `u8`s.
pub open spec fn has_room(s: Seq<char>) -> bool {
    &&& s.len() < 65535
    &&& count_char(s, '(') < 255
    &&& count_char(s, '[') < 255
}

/// Relies on urlocator's `UrlLocator::new`: a parser that has seen no character.
#[verifier::external_body]
pub(crate) fn new_locator() -> (r: UrlLocator)
    ensures
        r == locator_after(Seq::<char>::empty()),
{
    UrlLocator::new()
}

/// Relies on urlocator's `UrlLocator::advance`: the new parser value and the report are
/// functions of the old value and the character, so a parser reached by feeding `s`
/// becomes the one reached by feeding `s` and `c`. Its counters (`len: u16`,
/// `open_parentheses: u8`, `open_brackets: u8`) never exceed the length of an input that
/// reaches it and the counts of `(` and `[` in that input, so `has_room` of one such
/// input rules out an overflow.
#[verifier::external_body]
pub(crate) fn advance_locator(l: &mut UrlLocator, c: char) -> (r: Location)
    requires
        exists|s: Seq<char>| *old(l) == locator_after(s) && has_room(s),
    ensures
        forall|s: Seq<char>|
            *old(l) == #[trigger] locator_after(s) ==> *final(l) == locator_after(s.push(c))
                && r == location_after(s.push(c)),
{
    match l.advance(c) {
        UrlLocation::Url(length, end_offset) => Location::Url(length, end_offset),
        UrlLocation::Scheme => Location::Scheme,
        UrlLocation::Reset => Location::Reset,
    }
}

} // verus!
