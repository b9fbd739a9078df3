//! The parsed-document session: from raw bytes to a token stream that
//! the materializer, the query resolver and the JSON renderer read.
//!
//! Tokenization itself is the grammar engine's work and is trusted at
//! its interface; everything read out of the stream afterwards is
//! verified. A leading binary prefix is trimmed first: if an `=` byte
//! occurs before any ASCII control byte the buffer is used unchanged,
//! otherwise everything before the first control byte is dropped.

use vstd::prelude::*;
use jomini::TextToken as TT;
use crate::errors::create_error_msg;
use crate::token::op_of_symbol;
use crate::json::{DisambiguateMode, spec_json, to_json};
use crate::materialize::{materialize, spec_root};
use crate::query::{query, spec_query};
use crate::scalar::{TextEncoding, Narrowing};
use crate::token::{Token, wf};
use crate::value::{V, Value, vof};

verus! {

/// Whether a byte is an ASCII control byte.
pub open spec fn is_ctl(b: u8) -> bool {
    b < 32 || b == 127
}

/// The index where the textual body starts: the position of the first
/// ASCII control byte, unless an `=` occurs before it; the length
/// counts as "no control byte found".
pub open spec fn spec_body_start(s: Seq<u8>, i: int) -> int
    decreases s.len() - i when 0 <= i <= s.len()
{
    if i >= s.len() {
        0
    } else if s[i] == 61 {
        0
    } else if is_ctl(s[i]) {
        i
    } else {
        spec_body_start(s, i + 1)
    }
}

/// The buffer with any leading binary prefix removed.
pub open spec fn spec_skip_header(s: Seq<u8>) -> Seq<u8> {
    s.skip(spec_body_start(s, 0))
}

pub proof fn lemma_body_start_bounds(s: Seq<u8>, i: int)
    requires
        0 <= i <= s.len(),
    ensures
        0 <= spec_body_start(s, i) <= s.len(),
    decreases s.len() - i,
{
    if i < s.len() && s[i] != 61 && !is_ctl(s[i]) {
        lemma_body_start_bounds(s, i + 1);
    }
}

/// Trim a leading binary prefix from a document buffer.
pub fn skip_header(data: &[u8]) -> (r: Vec<u8>)
    ensures
        r@ == spec_skip_header(data@),
{
    let mut i: usize = 0;
    let mut start: usize = 0;
    let mut found = false;
    while i < data.len() && !found
        invariant
            0 <= i <= data@.len(),
            !found ==> start == 0 && spec_body_start(data@, 0) == spec_body_start(
                data@,
                i as int,
            ),
            found ==> start == spec_body_start(data@, 0) && start <= data@.len(),
        decreases data@.len() - i, (if found { 0int } else { 1int }),
    {
        let b = data[i];
        if b == 61 {
            start = 0;
            found = true;
        } else if b < 32 || b == 127 {
            start = i;
            found = true;
        } else {
            i += 1;
        }
    }
    proof {
        if !found {
            assert(spec_body_start(data@, i as int) == 0);
        }
    }
    let mut out: Vec<u8> = Vec::new();
    let mut k = start;
    while k < data.len()
        invariant
            start <= k <= data@.len(),
            out@ =~= data@.subrange(start as int, k as int),
        decreases data@.len() - k,
    {
        out.push(data[k]);
        proof {
            assert(out@ =~= data@.subrange(start as int, k + 1));
        }
        k += 1;
    }
    proof {
        assert(out@ =~= data@.skip(start as int));
    }
    out
}

/// The token stream that the grammar engine produces for a byte
/// buffer, or `None` when the buffer is malformed. A function of the
/// bytes alone.
pub uninterp spec fn spec_tokenize(data: Seq<u8>) -> Option<Seq<Token>>;

/// The tokens held by a parsed tape.
pub uninterp spec fn tape_tokens(t: &jomini::TextTape) -> Seq<Token>;

#[verifier::external_type_specification]
#[verifier::external_body]
pub struct ExTextTape<'a>(jomini::TextTape<'a>);

/// Relies on jomini::TextTape::from_slice: tokenizing is a function of
/// the bytes alone; on failure the error's display text is returned.
#[verifier::external_body]
fn tape_parse(data: &[u8]) -> (r: Result<jomini::TextTape<'_>, String>)
    ensures
        match r {
            Ok(t) => spec_tokenize(data@) == Some(tape_tokens(&t)),
            Err(_) => spec_tokenize(data@) is None,
        },
{
    jomini::TextTape::from_slice(data).map_err(|e| format!("{}", e))
}

/// Relies on jomini::TextTape::tokens: how many tokens the tape holds.
#[verifier::external_body]
fn tape_token_count(t: &jomini::TextTape) -> (r: usize)
    ensures
        r == tape_tokens(t).len(),
{
    t.tokens().len()
}

/// Relies on jomini::TextTape::tokens: the token at one index,
/// converted variant for variant; an operator token goes through its
/// documented symbol.
#[verifier::external_body]
fn tape_token_at(t: &jomini::TextTape, i: usize) -> (r: Token)
    requires
        i < tape_tokens(t).len(),
    ensures
        r == tape_tokens(t)[i as int],
{
    match &t.tokens()[i] {
        TT::Unquoted(s) => Token::Unquoted(s.as_bytes().to_vec()),
        TT::Quoted(s) => Token::Quoted(s.as_bytes().to_vec()),
        TT::Array { end, .. } => Token::Array(*end),
        TT::Object { end, .. } => Token::Object(*end),
        TT::MixedContainer => Token::Mixed,
        TT::Parameter(s) => Token::Parameter(s.as_bytes().to_vec()),
        TT::UndefinedParameter(s) => Token::UndefinedParameter(s.as_bytes().to_vec()),
        TT::Operator(o) => Token::Operator(op_of_symbol(o.symbol().as_bytes())),
        TT::End(_) => Token::End,
        TT::Header(s) => Token::Header(s.as_bytes().to_vec()),
    }
}

/// A parsed document: the token stream with the policies chosen for
/// reading it. It answers materializations and queries, read-only,
/// any number of times.
pub struct Query {
    /// The ordered token stream.
    pub tokens: Vec<Token>,
    /// The decoding for scalar bytes.
    pub enc: TextEncoding,
    /// The scalar narrowing policy.
    pub nar: Narrowing,
}

impl Query {
    /// The token stream is well nested; `parse_text` establishes this
    /// and every reader requires it.
    pub open spec fn valid(self) -> bool {
        wf(self.tokens@)
    }

    /// Materialize the whole document into its root object.
    pub fn root(&self) -> (r: Value)
        requires
            self.valid(),
        ensures
            vof(r) == spec_root(self.tokens@, self.enc, self.nar, true),
    {
        materialize(&self.tokens, self.enc, self.nar, true)
    }

    /// Render the whole document as compact JSON text under the
    /// chosen duplicate-key disambiguation mode.
    pub fn json(&self, mode: DisambiguateMode) -> (r: Vec<u8>)
        requires
            self.valid(),
        ensures
            r@ == spec_json(self.tokens@, self.enc, self.nar, mode),
    {
        to_json(&self.tokens, self.enc, self.nar, mode)
    }

    /// Resolve a slash-separated path to the value, value array or
    /// undefined sentinel it points at.
    pub fn at(&self, path: &[u8]) -> (r: Option<Value>)
        requires
            self.valid(),
        ensures
            match r {
                Some(v) => spec_query(self.tokens@, path@, self.enc, self.nar) == Some(vof(v)),
                None => spec_query(self.tokens@, path@, self.enc, self.nar) is None,
            },
    {
        query(&self.tokens, path, self.enc, self.nar)
    }
}

/// Parse a document: trim the binary header, tokenize, and check that
/// the stream is well nested. Fails exactly when the grammar engine
/// rejects the bytes or hands back a stream that is not well nested.
pub fn parse_text(d: Vec<u8>, enc: TextEncoding, nar: Narrowing) -> (r: Result<Query, String>)
    ensures
        ({
            let t = spec_tokenize(spec_skip_header(d@));
            match r {
                Ok(q) => {
                    &&& t == Some(q.tokens@)
                    &&& q.valid()
                    &&& q.enc == enc
                    &&& q.nar == nar
                },
                Err(_) => t is None || !wf(t->Some_0),
            }
        }),
{
    let data = skip_header(d.as_slice());
    let tape = tape_parse(data.as_slice());
    match tape {
        Err(msg) => {
            let mut msgs: Vec<String> = Vec::new();
            msgs.push(msg);
            Err(create_error_msg(&msgs))
        },
        Ok(tape) => {
            let count = tape_token_count(&tape);
            let mut toks: Vec<Token> = Vec::new();
            let mut i: usize = 0;
            while i < count
                invariant
                    0 <= i <= count,
                    count == tape_tokens(&tape).len(),
                    toks@ =~= tape_tokens(&tape).take(i as int),
                decreases count - i,
            {
                let tok = tape_token_at(&tape, i);
                toks.push(tok);
                proof {
                    assert(toks@ =~= tape_tokens(&tape).take(i + 1));
                }
                i += 1;
            }
            proof {
                assert(toks@ =~= tape_tokens(&tape));
            }
            if crate::token::check_wf(&toks) {
                Ok(Query { tokens: toks, enc, nar })
            } else {
                Err(String::from_str("token stream is not well nested"))
            }
        },
    }
}

/// Create a fresh incremental writer.
pub fn write_text() -> (r: crate::writer::Writer)
    ensures
        r.out@ == Seq::<u8>::empty(),
        r.mode == crate::writer::DepthMode::Object,
        r.depth@ == Seq::<crate::writer::DepthMode>::empty(),
        r.state == crate::writer::WriteState::Key,
        r.needs_nl == false,
        r.mixed == crate::writer::MixedState::Disabled,
{
    crate::writer::Writer::new()
}

} // verus!
