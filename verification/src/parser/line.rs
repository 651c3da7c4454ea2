//! One raw line of a robots.txt document, with its 1-based line number.

use vstd::prelude::*;

verus! {

/// The mathematical form of a line.
#[verifier::ext_equal]
pub struct SpecLine {
    pub text: Seq<char>,
    pub number: int,
}

/// A raw document line and its 1-based position.
#[derive(Debug)]
pub struct Line {
    pub text: String,
    pub number: usize,
}

impl View for Line {
    type V = SpecLine;

    open spec fn view(&self) -> SpecLine {
        SpecLine { text: self.text@, number: self.number as int }
    }
}

impl Line {
    /// Pair a line's text with its position.
    pub fn new(text: String, number: usize) -> (r: Line)
        ensures
            r@ == (SpecLine { text: text@, number: number as int }),
    {
        Line { text, number }
    }

    /// The raw text of the line.
    pub fn get_line_text(&self) -> (r: &String)
        ensures
            r@ == self@.text,
    {
        &self.text
    }

    /// The 1-based position of the line.
    pub fn get_line_number(&self) -> (r: usize)
        ensures
            r as int == self@.number,
    {
        self.number
    }
}

} // verus!
