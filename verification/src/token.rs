//! The token stream model: the flat, ordered form of a parsed document.
//!
//! A container token (`Array`, `Object`) carries the index of its matching
//! `End` token. `wf` states that these indices are well nested; every
//! reader in this crate works only on well-formed streams, and
//! `check_wf` decides well-formedness for a concrete stream.

use vstd::prelude::*;

verus! {

/// A relational operator that may qualify a value (`a < b`) or stand
/// between a key and its value (`a = b`).
#[derive(Debug, Clone, Copy, PartialEq, Eq, Structural)]
pub enum Op {
    LessThan,
    LessThanEqual,
    GreaterThan,
    GreaterThanEqual,
    NotEqual,
    Exact,
    Equal,
    Exists,
}

impl Op {
    /// The operator's spelling in the source grammar.
    pub open spec fn spec_symbol(self) -> Seq<u8> {
        match self {
            Op::LessThan => spec_bytes("<"),
            Op::LessThanEqual => spec_bytes("<="),
            Op::GreaterThan => spec_bytes(">"),
            Op::GreaterThanEqual => spec_bytes(">="),
            Op::NotEqual => spec_bytes("!="),
            Op::Exact => spec_bytes("=="),
            Op::Equal => spec_bytes("="),
            Op::Exists => spec_bytes("?="),
        }
    }

    /// The operator's canonical name, used as the key of the
    /// single-entry mapping that wraps a qualified value.
    pub open spec fn spec_name(self) -> Seq<u8> {
        match self {
            Op::LessThan => spec_bytes("LESS_THAN"),
            Op::LessThanEqual => spec_bytes("LESS_THAN_EQUAL"),
            Op::GreaterThan => spec_bytes("GREATER_THAN"),
            Op::GreaterThanEqual => spec_bytes("GREATER_THAN_EQUAL"),
            Op::NotEqual => spec_bytes("NOT_EQUAL"),
            Op::Exact => spec_bytes("EXACT"),
            Op::Equal => spec_bytes("EQUAL"),
            Op::Exists => spec_bytes("EXISTS"),
        }
    }
}

/// The byte sequence of an ASCII string literal.
pub open spec fn spec_bytes(s: &str) -> Seq<u8> {
    s@.map(|_i: int, c: char| c as u8)
}

/// One token of the stream.
#[derive(Debug, Clone, PartialEq, Eq)]
pub enum Token {
    /// An unquoted scalar's raw bytes.
    Unquoted(Vec<u8>),
    /// A quoted scalar's raw bytes, without the surrounding quotes.
    Quoted(Vec<u8>),
    /// Start of an array; the payload is the index of the matching `End`.
    Array(usize),
    /// Start of an object; the payload is the index of the matching `End`.
    Object(usize),
    /// Marks the point where an object's content continues as an array.
    Mixed,
    /// A defined macro parameter's name bytes.
    Parameter(Vec<u8>),
    /// An undefined macro parameter's name bytes.
    UndefinedParameter(Vec<u8>),
    /// A non-`=` operator standing before a value.
    Operator(Op),
    /// Close of a container.
    End,
    /// Tags the following tokens as a key/value header pair.
    Header(Vec<u8>),
}


/// The operator that a grammar symbol denotes; any other byte string
/// reads as the plain `=`.
pub open spec fn spec_op_of_symbol(s: Seq<u8>) -> Op {
    if s =~= spec_bytes("<") {
        Op::LessThan
    } else if s =~= spec_bytes("<=") {
        Op::LessThanEqual
    } else if s =~= spec_bytes(">") {
        Op::GreaterThan
    } else if s =~= spec_bytes(">=") {
        Op::GreaterThanEqual
    } else if s =~= spec_bytes("!=") {
        Op::NotEqual
    } else if s =~= spec_bytes("==") {
        Op::Exact
    } else if s =~= spec_bytes("?=") {
        Op::Exists
    } else {
        Op::Equal
    }
}

/// Read an operator from its grammar symbol.
pub fn op_of_symbol(s: &[u8]) -> (r: Op)
    ensures
        r == spec_op_of_symbol(s@),
{
    proof {
        reveal_strlit("<");
        reveal_strlit("<=");
        reveal_strlit(">");
        reveal_strlit(">=");
        reveal_strlit("!=");
        reveal_strlit("==");
        reveal_strlit("?=");
    }
    if s.len() == 1 {
        if s[0] == 60 {
            Op::LessThan
        } else if s[0] == 62 {
            Op::GreaterThan
        } else {
            Op::Equal
        }
    } else if s.len() == 2 {
        if s[0] == 60 && s[1] == 61 {
            Op::LessThanEqual
        } else if s[0] == 62 && s[1] == 61 {
            Op::GreaterThanEqual
        } else if s[0] == 33 && s[1] == 61 {
            Op::NotEqual
        } else if s[0] == 61 && s[1] == 61 {
            Op::Exact
        } else if s[0] == 63 && s[1] == 61 {
            Op::Exists
        } else {
            Op::Equal
        }
    } else {
        Op::Equal
    }
}

/// The canonical name of an operator, using only letters.
pub fn operator_name(op: Op) -> (r: &'static str)
    ensures
        spec_bytes(r) == op.spec_name(),
{
    match op {
        Op::LessThan => "LESS_THAN",
        Op::LessThanEqual => "LESS_THAN_EQUAL",
        Op::GreaterThan => "GREATER_THAN",
        Op::GreaterThanEqual => "GREATER_THAN_EQUAL",
        Op::NotEqual => "NOT_EQUAL",
        Op::Exact => "EXACT",
        Op::Equal => "EQUAL",
        Op::Exists => "EXISTS",
    }
}

/// The tokens from `start` to `end` (exclusive) form a well-nested
/// sequence of items: every container's end index lies inside the span,
/// closes after its start, and both its content span and the rest are
/// themselves well nested. A bare `End` never appears as an item.
pub open spec fn wf_span(toks: Seq<Token>, start: int, end: int) -> bool
    decreases end - start,
{
    if start >= end {
        start == end
    } else {
        match toks[start] {
            Token::Array(e) => {
                &&& start < e < end
                &&& toks[e as int] is End
                &&& wf_span(toks, start + 1, e as int)
                &&& wf_span(toks, e + 1, end)
            },
            Token::Object(e) => {
                &&& start < e < end
                &&& toks[e as int] is End
                &&& wf_span(toks, start + 1, e as int)
                &&& wf_span(toks, e + 1, end)
            },
            Token::End => false,
            _ => wf_span(toks, start + 1, end),
        }
    }
}

/// A whole stream is well formed when its full span is.
pub open spec fn wf(toks: Seq<Token>) -> bool {
    wf_span(toks, 0, toks.len() as int)
}

/// Decides `wf_span` for a concrete stream.
pub fn check_wf_span(toks: &Vec<Token>, start: usize, end: usize) -> (r: bool)
    requires
        start <= end <= toks@.len(),
    ensures
        r == wf_span(toks@, start as int, end as int),
    decreases end - start,
{
    if start >= end {
        true
    } else {
        match &toks[start] {
            Token::Array(e) => {
                let e = *e;
                if start < e && e < end {
                    let closed = matches!(&toks[e], Token::End);
                    closed && check_wf_span(toks, start + 1, e) && check_wf_span(
                        toks,
                        e + 1,
                        end,
                    )
                } else {
                    false
                }
            },
            Token::Object(e) => {
                let e = *e;
                if start < e && e < end {
                    let closed = matches!(&toks[e], Token::End);
                    closed && check_wf_span(toks, start + 1, e) && check_wf_span(
                        toks,
                        e + 1,
                        end,
                    )
                } else {
                    false
                }
            },
            Token::End => false,
            _ => check_wf_span(toks, start + 1, end),
        }
    }
}

/// Decides `wf` for a concrete stream.
pub fn check_wf(toks: &Vec<Token>) -> (r: bool)
    ensures
        r == wf(toks@),
{
    check_wf_span(toks, 0, toks.len())
}

} // verus!
