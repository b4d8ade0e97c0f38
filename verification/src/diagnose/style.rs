//! Colours for terminals.

use vstd::prelude::*;

use crate::text::owned;

verus! {

/// Whether a report is coloured.
#[derive(Clone, Copy, Debug, PartialEq, Eq, Structural)]
pub struct Style {
    pub color: bool,
}

impl Style {
    /// `s` between the escape sequences that switch `code` on and off, where there is colour.
    pub open spec fn wrapped(self, code: Seq<char>, s: Seq<char>) -> Seq<char> {
        if self.color {
            "\x1b["@ + code + "m"@ + s + "\x1b[0m"@
        } else {
            s
        }
    }

    pub fn new(color: bool) -> (r: Style)
        ensures
            r.color == color,
    {
        Style { color }
    }

    pub fn wrap(&self, code: &str, s: &str) -> (r: String)
        ensures
            r@ == self.wrapped(code@, s@),
    {
        if self.color {
            let mut r = owned("\x1b[");
            r.append(code);
            r.append("m");
            r.append(s);
            r.append("\x1b[0m");
            r
        } else {
            owned(s)
        }
    }

    pub fn bold(&self, s: &str) -> (r: String)
        ensures
            r@ == self.wrapped("1"@, s@),
    {
        self.wrap("1", s)
    }

    pub fn dim(&self, s: &str) -> (r: String)
        ensures
            r@ == self.wrapped("2"@, s@),
    {
        self.wrap("2", s)
    }

    pub fn green(&self, s: &str) -> (r: String)
        ensures
            r@ == self.wrapped("32"@, s@),
    {
        self.wrap("32", s)
    }

    pub fn yellow(&self, s: &str) -> (r: String)
        ensures
            r@ == self.wrapped("33"@, s@),
    {
        self.wrap("33", s)
    }

    pub fn red(&self, s: &str) -> (r: String)
        ensures
            r@ == self.wrapped("31"@, s@),
    {
        self.wrap("31", s)
    }
}

} // verus!
