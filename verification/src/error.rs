use crate::number::{decimal_digits, decimal_string};
use crate::rule::Rule;
use vstd::prelude::*;
use vstd::string::*;

verus! {

/// Where in the source a syntax error lies: lines and columns count from 1.
#[derive(Debug, Clone, Copy, PartialEq, Eq)]
pub enum LineColLocation {
    /// One place: line and column.
    Pos((usize, usize)),
    /// A stretch: line and column of its start, then of its end.
    Span((usize, usize), (usize, usize)),
}

/// Why a query has no value.
#[derive(Debug, Clone, Copy, PartialEq, Eq)]
pub enum Error {
    /// The grammar did not accept the text.
    Syntax(LineColLocation),
    /// The tree holds a node of a rule that has no value.
    UnsupportedConstruct(Rule),
    /// A node of this rule does not have the children or the text that the rule needs.
    ContractViolation(Rule),
    /// The tree is nested deeper than the transformer goes.
    NestingTooDeep,
}

/// `line`, a colon, `column`.
pub open spec fn place_text(place: (usize, usize)) -> Seq<char> {
    decimal_digits(place.0 as nat) + ":"@ + decimal_digits(place.1 as nat)
}

/// What [`Error::message`] says of `error`.
pub open spec fn message_text(error: Error) -> Seq<char> {
    match error {
        Error::Syntax(LineColLocation::Pos(at)) => "Parse Error: at "@ + place_text(at),
        Error::Syntax(LineColLocation::Span(start, end)) => "Parse Error: at "@ + place_text(
            start,
        ) + " to "@ + place_text(end),
        Error::UnsupportedConstruct(_) => "Unsupported construct"@,
        Error::ContractViolation(_) => "Contract violation"@,
        Error::NestingTooDeep => "Nesting too deep"@,
    }
}

/// Appends `line`, a colon and `column` to `out`.
fn append_place(out: &mut String, place: (usize, usize))
    ensures
        final(out)@ == old(out)@ + place_text(place),
{
    let line = decimal_string(place.0);
    let column = decimal_string(place.1);
    out.append(line.as_str());
    out.append(":");
    out.append(column.as_str());
    assert(out@ =~= old(out)@ + place_text(place));
}

impl Error {
    /// The error in words; a syntax error with its place.
    pub fn message(&self) -> (out: String)
        ensures
            out@ == message_text(*self),
    {
        match self {
            Error::Syntax(LineColLocation::Pos(at)) => {
                let mut out = String::from_str("Parse Error: at ");
                append_place(&mut out, *at);
                out
            },
            Error::Syntax(LineColLocation::Span(start, end)) => {
                let mut out = String::from_str("Parse Error: at ");
                append_place(&mut out, *start);
                out.append(" to ");
                append_place(&mut out, *end);
                out
            },
            Error::UnsupportedConstruct(_) => String::from_str("Unsupported construct"),
            Error::ContractViolation(_) => String::from_str("Contract violation"),
            Error::NestingTooDeep => String::from_str("Nesting too deep"),
        }
    }
}

} // verus!
