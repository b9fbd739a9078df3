//! The document materializer: from a well-formed token stream to the
//! value tree.
//!
//! The spec functions in this module are the semantics of
//! materialization: how a reader walks a container span, which tokens
//! pair into fields, how duplicate keys group, and what lands in the
//! remainder bucket. `materialize` and the builders below are proved
//! to compute exactly those semantics.

use vstd::prelude::*;
use crate::token::{Op, Token, spec_bytes, wf, wf_span};
use crate::scalar::{TextEncoding, Narrowing, decode_of, decode_text};
use crate::value::{V, Value, bytes_eq, param_text, spec_coerce, spec_param_text, vof, vof_entries,
    vof_list, coerce_scalar, lemma_vof_list_len, lemma_vof_entries_len};

verus! {

/// Tokens that may stand as an object key.
pub open spec fn is_key_token(t: Token) -> bool {
    t is Unquoted || t is Quoted || t is Parameter || t is UndefinedParameter
}

/// The raw bytes of a key token.
pub open spec fn spec_key_raw(toks: Seq<Token>, i: int) -> Seq<u8> {
    match toks[i] {
        Token::Unquoted(b) => b@,
        Token::Quoted(b) => b@,
        Token::Parameter(b) => b@,
        Token::UndefinedParameter(b) => b@,
        _ => Seq::empty(),
    }
}

/// The rendered text of a key: a macro parameter renders in brackets,
/// any other key is its decoded bytes.
pub open spec fn spec_key_name(toks: Seq<Token>, i: int, enc: TextEncoding) -> Seq<u8> {
    match toks[i] {
        Token::Parameter(b) => spec_param_text(decode_of(enc, b@), true),
        Token::UndefinedParameter(b) => spec_param_text(decode_of(enc, b@), false),
        _ => decode_of(enc, spec_key_raw(toks, i)),
    }
}

/// The index just past the value starting at `i`, clamped to the
/// enclosing span's `end`: containers jump to their close, an operator
/// is skipped together with its operand, a header together with the
/// value it tags.
pub open spec fn nxt(toks: Seq<Token>, i: int, end: int) -> int
    decreases end - i, 0int when i >= 0 && end <= toks.len()
{
    if i >= end {
        end
    } else {
        match toks[i] {
            Token::Array(e) => if i < e < end {
                e + 1
            } else {
                end
            },
            Token::Object(e) => if i < e < end {
                e + 1
            } else {
                end
            },
            Token::Operator(_) => nxt(toks, i + 1, end),
            Token::Header(_) => nxt_h(toks, i + 1, end),
            _ => i + 1,
        }
    }
}

/// The index just past the single value starting at `i`, where an
/// operator may still precede it.
pub open spec fn nxt_h(toks: Seq<Token>, i: int, end: int) -> int
    decreases end - i, 1int when i >= 0 && end <= toks.len()
{
    if i >= end {
        end
    } else {
        match toks[i] {
            Token::Array(e) => if i < e < end {
                e + 1
            } else {
                end
            },
            Token::Object(e) => if i < e < end {
                e + 1
            } else {
                end
            },
            Token::Operator(_) => nxt(toks, i, end),
            _ => i + 1,
        }
    }
}

/// The index just past the array element starting at `i`: only
/// containers span more than one token.
pub open spec fn nxt_v(toks: Seq<Token>, i: int, end: int) -> int {
    if i >= end {
        end
    } else {
        match toks[i] {
            Token::Array(e) => if i < e < end {
                e + 1
            } else {
                end
            },
            Token::Object(e) => if i < e < end {
                e + 1
            } else {
                end
            },
            _ => i + 1,
        }
    }
}

/// `nxt` lands strictly past its start and never past the span.
pub proof fn lemma_nxt_bounds(toks: Seq<Token>, i: int, end: int)
    requires
        0 <= i,
        end <= toks.len(),
    ensures
        i >= end ==> nxt(toks, i, end) == end,
        i < end ==> i < nxt(toks, i, end) <= end,
    decreases end - i, 0int,
{
    if i < end {
        match toks[i] {
            Token::Operator(_) => {
                lemma_nxt_bounds(toks, i + 1, end);
            },
            Token::Header(_) => {
                lemma_nxt_h_bounds(toks, i + 1, end);
            },
            _ => {},
        }
    }
}

/// `nxt_h` lands at or past its start and never past the span.
pub proof fn lemma_nxt_h_bounds(toks: Seq<Token>, i: int, end: int)
    requires
        0 <= i,
        end <= toks.len(),
    ensures
        i >= end ==> nxt_h(toks, i, end) == end,
        i < end ==> i < nxt_h(toks, i, end) <= end,
    decreases end - i, 1int,
{
    if i < end {
        match toks[i] {
            Token::Operator(_) => {
                lemma_nxt_bounds(toks, i, end);
            },
            _ => {},
        }
    }
}

/// Advancing past a value keeps the rest of the span well nested.
pub proof fn lemma_wf_nxt(toks: Seq<Token>, i: int, end: int)
    requires
        end <= toks.len(),
        0 <= i < end,
        wf_span(toks, i, end),
    ensures
        i < nxt(toks, i, end) <= end,
        wf_span(toks, nxt(toks, i, end), end),
    decreases end - i, 0int,
{
    match toks[i] {
        Token::Array(_) => {},
        Token::Object(_) => {},
        Token::Operator(_) => {
            if i + 1 < end {
                lemma_wf_nxt(toks, i + 1, end);
            }
        },
        Token::Header(_) => {
            lemma_wf_nxt_h(toks, i + 1, end);
        },
        _ => {},
    }
}

/// Advancing past an operator-qualified value keeps the rest of the
/// span well nested.
pub proof fn lemma_wf_nxt_h(toks: Seq<Token>, i: int, end: int)
    requires
        end <= toks.len(),
        0 <= i <= end,
        wf_span(toks, i, end),
    ensures
        i <= nxt_h(toks, i, end) <= end,
        i < end ==> i < nxt_h(toks, i, end),
        wf_span(toks, nxt_h(toks, i, end), end),
    decreases end - i, 1int,
{
    if i < end {
        match toks[i] {
            Token::Array(_) => {},
            Token::Object(_) => {},
            Token::Operator(_) => {
                lemma_wf_nxt(toks, i, end);
            },
            _ => {},
        }
    }
}

/// Advancing past an array element keeps the rest of the span well
/// nested.
pub proof fn lemma_wf_nxt_v(toks: Seq<Token>, i: int, end: int)
    requires
        end <= toks.len(),
        0 <= i < end,
        wf_span(toks, i, end),
    ensures
        i < nxt_v(toks, i, end) <= end,
        wf_span(toks, nxt_v(toks, i, end), end),
{
}

/// What `build_value` needs of its start index: a container there is
/// closed and well nested, and a header's tagged value is in the same
/// state.
pub open spec fn value_wf(toks: Seq<Token>, i: int) -> bool
    decreases toks.len() - i when i >= 0
{
    0 <= i <= toks.len() && (i < toks.len() ==> match toks[i] {
        Token::Array(e) => i < e <= toks.len() && wf_span(toks, i + 1, e as int) && (
        e < toks.len() ==> toks[e as int] is End),
        Token::Object(e) => i < e <= toks.len() && wf_span(toks, i + 1, e as int) && (
        e < toks.len() ==> toks[e as int] is End),
        Token::Header(_) => value_wf(toks, i + 1),
        _ => true,
    })
}

/// Every item boundary of a well-nested span can start a value.
pub proof fn lemma_wf_value(toks: Seq<Token>, i: int, end: int)
    requires
        end <= toks.len(),
        0 <= i <= end,
        i < end ==> wf_span(toks, i, end),
        end == toks.len() || toks[end] is End,
    ensures
        value_wf(toks, i),
    decreases toks.len() - i,
{
    if i < end {
        match toks[i] {
            Token::Header(_) => {
                lemma_wf_value(toks, i + 1, end);
            },
            _ => {},
        }
    }
}

/// One field of an object span: the key token's index, the operator
/// between key and value if one stands there, and the value's index.
#[verifier::ext_equal]
pub struct FieldSpec {
    pub ki: int,
    pub op: Option<Op>,
    pub vi: int,
}

/// The operator and value index of the field whose key stands at `i`.
pub open spec fn field_at(toks: Seq<Token>, i: int, end: int) -> FieldSpec {
    if i + 1 < end && toks[i + 1] is Operator {
        FieldSpec { ki: i, op: Some(toks[i + 1]->Operator_0), vi: i + 2 }
    } else {
        FieldSpec { ki: i, op: None, vi: i + 1 }
    }
}

/// Where the field scan of an object span stops.
pub open spec fn spec_fields_stop(toks: Seq<Token>, i: int, end: int) -> int
    decreases end - i when i >= 0 && end <= toks.len() via spec_fields_stop_dec
{
    if i >= end || !is_key_token(toks[i]) {
        i
    } else {
        spec_fields_stop(toks, nxt(toks, field_at(toks, i, end).vi, end), end)
    }
}

/// The value a token materializes to.
///
/// Scalars coerce under the narrowing policy; a container with no
/// elements is always an empty keyed structure; a header collapses
/// with the value it tags into a single-entry mapping; a token with no
/// value reading is null.
pub open spec fn spec_value(toks: Seq<Token>, i: int, enc: TextEncoding, nar: Narrowing, g: bool) -> V
    decreases toks.len() - i, 0int when i >= 0
{
    if i >= toks.len() {
        V::Null
    } else {
        match toks[i] {
            Token::Unquoted(b) => spec_coerce(b@, false, nar, enc),
            Token::Quoted(b) => spec_coerce(b@, true, nar, enc),
            Token::Array(e) => if i < e <= toks.len() {
                let vs = spec_values(toks, i + 1, e as int, enc, nar, g);
                if vs.len() == 0 {
                    V::Obj(Seq::empty())
                } else {
                    V::Arr(vs)
                }
            } else {
                V::Null
            },
            Token::Object(e) => if i < e <= toks.len() {
                V::Obj(spec_obj_entries(toks, i + 1, e as int, enc, nar, g))
            } else {
                V::Null
            },
            Token::Header(b) => V::Obj(
                seq![(decode_of(enc, b@), spec_value(toks, i + 1, enc, nar, g))],
            ),
            _ => V::Null,
        }
    }
}

/// The ordered element values of an array span.
pub open spec fn spec_values(toks: Seq<Token>, i: int, end: int, enc: TextEncoding,
    nar: Narrowing, g: bool) -> Seq<V>
    decreases toks.len() - i, 1int when i >= 0 && end <= toks.len()
{
    if i >= end {
        Seq::empty()
    } else {
        seq![spec_value(toks, i, enc, nar, g)] + spec_values(toks, nxt_v(toks, i, end), end, enc, nar, g)
    }
}

/// A value with its preceding operator applied: a qualified value
/// becomes a single-entry mapping keyed by the operator's name.
pub open spec fn wrap_op(op: Option<Op>, v: V) -> V {
    match op {
        Some(o) => V::Obj(seq![(o.spec_name(), v)]),
        None => v,
    }
}

/// One materialized field of an object span.
#[verifier::ext_equal]
pub struct EntrySpec {
    /// The key token's index.
    pub ki: int,
    /// The operator between key and value, if any.
    pub op: Option<Op>,
    /// The value's index.
    pub vi: int,
    /// The key token's raw bytes; duplicate keys match on these.
    pub raw: Seq<u8>,
    /// The key's decoded bytes; path queries match on these.
    pub dec: Seq<u8>,
    /// The key's rendered text, as it appears in output.
    pub name: Seq<u8>,
    /// The materialized value, operator wrapping applied.
    pub val: V,
}

/// The materialized fields of an object span, in order.
pub open spec fn spec_entries(toks: Seq<Token>, i: int, end: int, enc: TextEncoding,
    nar: Narrowing, g: bool) -> Seq<EntrySpec>
    decreases toks.len() - i, 2int when i >= 0 && end <= toks.len() via spec_entries_dec
{
    if i >= end || !is_key_token(toks[i]) {
        Seq::empty()
    } else {
        let f = field_at(toks, i, end);
        let raw = spec_key_raw(toks, i);
        let e = EntrySpec {
            ki: i,
            op: f.op,
            vi: f.vi,
            raw: raw,
            dec: decode_of(enc, raw),
            name: spec_key_name(toks, i, enc),
            val: wrap_op(f.op, spec_value(toks, f.vi, enc, nar, g)),
        };
        seq![e] + spec_entries(toks, nxt(toks, f.vi, end), end, enc, nar, g)
    }
}

/// A key at `i` repeats one seen earlier in the entry list.
pub open spec fn seen_before(es: Seq<EntrySpec>, i: int) -> bool {
    exists|j: int| 0 <= j < i && es[j].raw == es[i].raw
}

/// The values of every entry from `j` on whose key bytes are `raw`, in
/// order.
pub open spec fn group_vals(es: Seq<EntrySpec>, raw: Seq<u8>, j: int) -> Seq<V>
    decreases es.len() - j when j >= 0
{
    if j >= es.len() {
        Seq::empty()
    } else if es[j].raw == raw {
        seq![es[j].val] + group_vals(es, raw, j + 1)
    } else {
        group_vals(es, raw, j + 1)
    }
}

/// Entries grouped by duplicate keys, from `i` on: each key appears
/// once, at its first occurrence, holding its single value or the
/// ordered array of all its values.
pub open spec fn spec_grouped(es: Seq<EntrySpec>, i: int) -> Seq<(Seq<u8>, V)>
    decreases es.len() - i when i >= 0
{
    if i >= es.len() {
        Seq::empty()
    } else if seen_before(es, i) {
        spec_grouped(es, i + 1)
    } else {
        let vs = group_vals(es, es[i].raw, i);
        let v = if vs.len() == 1 {
            vs[0]
        } else {
            V::Arr(vs)
        };
        seq![(es[i].name, v)] + spec_grouped(es, i + 1)
    }
}

/// Where an object span's remainder starts: just past the token that
/// stopped the field scan when that token marks mixed content, else at
/// the stopping point itself.
pub open spec fn spec_rem_start(toks: Seq<Token>, i: int, end: int) -> int {
    let stop = spec_fields_stop(toks, i, end);
    if stop < end && stop < toks.len() && toks[stop] is Mixed {
        stop + 1
    } else {
        stop
    }
}

/// The full materialization of an object span: its grouped fields,
/// then, when trailing tokens could not be paired into fields, a
/// `remainder` entry holding them as an ordered array.
pub open spec fn spec_obj_entries(toks: Seq<Token>, i: int, end: int, enc: TextEncoding,
    nar: Narrowing, g: bool) -> Seq<(Seq<u8>, V)>
    decreases toks.len() - i, 3int when 0 <= i <= end && end <= toks.len() via spec_obj_entries_dec
{
    let es = spec_entries(toks, i, end, enc, nar, g);
    let named = if g {
        spec_grouped(es, 0)
    } else {
        spec_ungrouped(es, 0)
    };
    let rem = spec_values(toks, spec_rem_start(toks, i, end), end, enc, nar, g);
    if rem.len() > 0 {
        named + seq![(spec_bytes("remainder"), V::Arr(rem))]
    } else {
        named
    }
}

/// Every entry as its own field, duplicates preserved in order.
pub open spec fn spec_ungrouped(es: Seq<EntrySpec>, i: int) -> Seq<(Seq<u8>, V)>
    decreases es.len() - i when i >= 0
{
    if i >= es.len() {
        Seq::empty()
    } else {
        seq![(es[i].name, es[i].val)] + spec_ungrouped(es, i + 1)
    }
}

#[via_fn]
proof fn spec_fields_stop_dec(toks: Seq<Token>, i: int, end: int) {
    if !(i >= end || !is_key_token(toks[i])) {
        lemma_nxt_bounds(toks, field_at(toks, i, end).vi, end);
    }
}

#[via_fn]
proof fn spec_entries_dec(toks: Seq<Token>, i: int, end: int, enc: TextEncoding, nar: Narrowing, g: bool) {
    if !(i >= end || !is_key_token(toks[i])) {
        lemma_nxt_bounds(toks, field_at(toks, i, end).vi, end);
    }
}

#[via_fn]
proof fn spec_obj_entries_dec(toks: Seq<Token>, i: int, end: int, enc: TextEncoding,
    nar: Narrowing, g: bool) {
    lemma_stop_ge(toks, i, end);
}

/// The field scan never stops before its start nor past its span.
pub proof fn lemma_stop_ge(toks: Seq<Token>, i: int, end: int)
    requires
        0 <= i,
        end <= toks.len(),
    ensures
        spec_fields_stop(toks, i, end) >= i,
        spec_rem_start(toks, i, end) >= i,
        i <= end ==> spec_fields_stop(toks, i, end) <= end && spec_rem_start(toks, i, end) <= end,
    decreases end - i,
{
    if !(i >= end || !is_key_token(toks[i])) {
        let a = nxt(toks, field_at(toks, i, end).vi, end);
        lemma_nxt_bounds(toks, field_at(toks, i, end).vi, end);
        lemma_stop_ge(toks, a, end);
    }
}

/// The tree a whole stream materializes to: the root object.
pub open spec fn spec_root(toks: Seq<Token>, enc: TextEncoding, nar: Narrowing, g: bool) -> V {
    V::Obj(spec_obj_entries(toks, 0, toks.len() as int, enc, nar, g))
}


/// `spec_entries` and `spec_fields_stop` agree with the fields that the
/// builder collects.
pub open spec fn field_ok(toks: Seq<Token>, f: (usize, Option<Op>, usize), e: EntrySpec,
    enc: TextEncoding, nar: Narrowing, g: bool) -> bool {
    &&& e.ki == f.0
    &&& e.op == f.1
    &&& e.vi == f.2
    &&& f.0 < toks.len()
    &&& is_key_token(toks[f.0 as int])
    &&& e.raw == spec_key_raw(toks, f.0 as int)
    &&& e.dec == decode_of(enc, e.raw)
    &&& e.name == spec_key_name(toks, f.0 as int, enc)
    &&& e.val == wrap_op(f.1, spec_value(toks, f.2 as int, enc, nar, g))
    &&& value_wf(toks, f.2 as int)
}

pub proof fn lemma_vof_list_push(xs: Seq<Value>, v: Value)
    ensures
        vof_list(xs.push(v)) == vof_list(xs).push(vof(v)),
{
    assert(xs.push(v).drop_last() =~= xs);
    assert(xs.push(v).last() == v);
}

pub proof fn lemma_vof_entries_push(es: Seq<(Vec<u8>, Value)>, e: (Vec<u8>, Value))
    ensures
        vof_entries(es.push(e)) == vof_entries(es).push((e.0@, vof(e.1))),
{
    assert(es.push(e).drop_last() =~= es);
    assert(es.push(e).last() == e);
}

pub proof fn lemma_vof_entries_one(es: Seq<(Vec<u8>, Value)>)
    requires
        es.len() == 1,
    ensures
        vof_entries(es) == seq![(es[0].0@, vof(es[0].1))],
{
    assert(es.drop_last() =~= Seq::<(Vec<u8>, Value)>::empty());
    assert(vof_entries(es.drop_last()) =~= Seq::<(Seq<u8>, V)>::empty());
    assert(vof_entries(es) =~= seq![(es[0].0@, vof(es[0].1))]);
}

pub proof fn lemma_vof_list_one(xs: Seq<Value>)
    requires
        xs.len() == 1,
    ensures
        vof_list(xs) == seq![vof(xs[0])],
{
    assert(xs.drop_last() =~= Seq::<Value>::empty());
    assert(vof_list(xs.drop_last()) =~= Seq::<V>::empty());
    assert(vof_list(xs) =~= seq![vof(xs[0])]);
}

/// Advance past the value at `i` within the span.
fn step(toks: &Vec<Token>, i: usize, end: usize) -> (r: usize)
    requires
        end <= toks@.len(),
    ensures
        r == nxt(toks@, i as int, end as int),
    decreases end - i, 0int,
{
    if i >= end {
        end
    } else {
        match &toks[i] {
            Token::Array(e) => {
                let e = *e;
                if i < e && e < end {
                    e + 1
                } else {
                    end
                }
            },
            Token::Object(e) => {
                let e = *e;
                if i < e && e < end {
                    e + 1
                } else {
                    end
                }
            },
            Token::Operator(_) => step(toks, i + 1, end),
            Token::Header(_) => step_h(toks, i + 1, end),
            _ => i + 1,
        }
    }
}

/// Advance past the possibly operator-qualified value at `i`.
fn step_h(toks: &Vec<Token>, i: usize, end: usize) -> (r: usize)
    requires
        end <= toks@.len(),
    ensures
        r == nxt_h(toks@, i as int, end as int),
    decreases end - i, 1int,
{
    if i >= end {
        end
    } else {
        match &toks[i] {
            Token::Array(e) => {
                let e = *e;
                if i < e && e < end {
                    e + 1
                } else {
                    end
                }
            },
            Token::Object(e) => {
                let e = *e;
                if i < e && e < end {
                    e + 1
                } else {
                    end
                }
            },
            Token::Operator(_) => step(toks, i, end),
            _ => i + 1,
        }
    }
}

/// Advance past the array element at `i`.
fn step_v(toks: &Vec<Token>, i: usize, end: usize) -> (r: usize)
    requires
        end <= toks@.len(),
    ensures
        r == nxt_v(toks@, i as int, end as int),
{
    if i >= end {
        end
    } else {
        match &toks[i] {
            Token::Array(e) => {
                let e = *e;
                if i < e && e < end {
                    e + 1
                } else {
                    end
                }
            },
            Token::Object(e) => {
                let e = *e;
                if i < e && e < end {
                    e + 1
                } else {
                    end
                }
            },
            _ => i + 1,
        }
    }
}

/// The raw bytes of the key token at `i`.
pub fn key_raw<'a>(toks: &'a Vec<Token>, i: usize) -> (r: &'a Vec<u8>)
    requires
        i < toks@.len(),
        is_key_token(toks@[i as int]),
    ensures
        r@ == spec_key_raw(toks@, i as int),
{
    match &toks[i] {
        Token::Unquoted(b) => b,
        Token::Quoted(b) => b,
        Token::Parameter(b) => b,
        Token::UndefinedParameter(b) => b,
        _ => vstd::pervasive::unreached(),
    }
}

/// The rendered text of the key token at `i`.
fn render_key(toks: &Vec<Token>, i: usize, enc: TextEncoding) -> (r: Vec<u8>)
    requires
        i < toks@.len(),
        is_key_token(toks@[i as int]),
    ensures
        r@ == spec_key_name(toks@, i as int, enc),
{
    match &toks[i] {
        Token::Unquoted(b) => decode_text(enc, b.as_slice()),
        Token::Quoted(b) => decode_text(enc, b.as_slice()),
        Token::Parameter(b) => {
            let dec = decode_text(enc, b.as_slice());
            param_text(dec.as_slice(), true)
        },
        Token::UndefinedParameter(b) => {
            let dec = decode_text(enc, b.as_slice());
            param_text(dec.as_slice(), false)
        },
        _ => vstd::pervasive::unreached(),
    }
}

/// An operator's canonical name as bytes.
fn op_name(o: Op) -> (r: Vec<u8>)
    ensures
        r@ == o.spec_name(),
{
    proof {
        reveal_strlit("LESS_THAN");
        reveal_strlit("LESS_THAN_EQUAL");
        reveal_strlit("GREATER_THAN");
        reveal_strlit("GREATER_THAN_EQUAL");
        reveal_strlit("NOT_EQUAL");
        reveal_strlit("EXACT");
        reveal_strlit("EQUAL");
        reveal_strlit("EXISTS");
    }
    let r: Vec<u8> = match o {
        Op::LessThan => vec![76, 69, 83, 83, 95, 84, 72, 65, 78],
        Op::LessThanEqual => vec![76, 69, 83, 83, 95, 84, 72, 65, 78, 95, 69, 81, 85, 65, 76],
        Op::GreaterThan => vec![71, 82, 69, 65, 84, 69, 82, 95, 84, 72, 65, 78],
        Op::GreaterThanEqual => vec![
            71,
            82,
            69,
            65,
            84,
            69,
            82,
            95,
            84,
            72,
            65,
            78,
            95,
            69,
            81,
            85,
            65,
            76,
        ],
        Op::NotEqual => vec![78, 79, 84, 95, 69, 81, 85, 65, 76],
        Op::Exact => vec![69, 88, 65, 67, 84],
        Op::Equal => vec![69, 81, 85, 65, 76],
        Op::Exists => vec![69, 88, 73, 83, 84, 83],
    };
    proof {
        assert(r@ =~= o.spec_name());
    }
    r
}

/// Build one field value, wrapping it when an operator qualifies it.
pub fn build_entry(toks: &Vec<Token>, op: Option<Op>, vi: usize, enc: TextEncoding, nar: Narrowing,
    g: bool) -> (r: Value)
    requires
        value_wf(toks@, vi as int),
    ensures
        vof(r) == wrap_op(op, spec_value(toks@, vi as int, enc, nar, g)),
    decreases toks@.len() - vi, 1int,
{
    match op {
        None => build_value(toks, vi, enc, nar, g),
        Some(o) => {
            let name = op_name(o);
            let inner = build_value(toks, vi, enc, nar, g);
            let mut es: Vec<(Vec<u8>, Value)> = Vec::new();
            es.push((name, inner));
            proof {
                lemma_vof_entries_one(es@);
                assert(vof_entries(es@) =~= seq![
                    (o.spec_name(), spec_value(toks@, vi as int, enc, nar, g)),
                ]);
            }
            Value::Obj(es)
        },
    }
}

/// Materialize the value starting at `i`.
pub fn build_value(toks: &Vec<Token>, i: usize, enc: TextEncoding, nar: Narrowing, g: bool) -> (r:
    Value)
    requires
        value_wf(toks@, i as int),
    ensures
        vof(r) == spec_value(toks@, i as int, enc, nar, g),
    decreases toks@.len() - i, 0int,
{
    if i >= toks.len() {
        return Value::Null;
    }
    match &toks[i] {
        Token::Unquoted(b) => coerce_scalar(b.as_slice(), false, nar, enc),
        Token::Quoted(b) => coerce_scalar(b.as_slice(), true, nar, enc),
        Token::Array(e) => {
            let e = *e;
            let vs = build_values(toks, i + 1, e, enc, nar, g);
            proof {
                lemma_vof_list_len(vs@);
            }
            if vs.len() == 0 {
                Value::Obj(Vec::new())
            } else {
                Value::Arr(vs)
            }
        },
        Token::Object(e) => {
            let e = *e;
            let es = build_object(toks, i + 1, e, enc, nar, g);
            Value::Obj(es)
        },
        Token::Header(b) => {
            let name = decode_text(enc, b.as_slice());
            let inner = build_value(toks, i + 1, enc, nar, g);
            let mut es: Vec<(Vec<u8>, Value)> = Vec::new();
            es.push((name, inner));
            proof {
                lemma_vof_entries_one(es@);
                assert(vof_entries(es@) =~= seq![
                    (decode_of(enc, b@), spec_value(toks@, i + 1, enc, nar, g)),
                ]);
            }
            Value::Obj(es)
        },
        _ => Value::Null,
    }
}

/// Materialize the ordered element values of an array span.
pub fn build_values(toks: &Vec<Token>, start: usize, end: usize, enc: TextEncoding,
    nar: Narrowing, g: bool) -> (r: Vec<Value>)
    requires
        start <= end <= toks@.len(),
        start < end ==> wf_span(toks@, start as int, end as int),
        end == toks@.len() || toks@[end as int] is End,
    ensures
        vof_list(r@) == spec_values(toks@, start as int, end as int, enc, nar, g),
    decreases toks@.len() - start, 1int,
{
    let mut out: Vec<Value> = Vec::new();
    let mut i = start;
    while i < end
        invariant
            start <= i <= end <= toks@.len(),
            i < end ==> wf_span(toks@, i as int, end as int),
            end == toks@.len() || toks@[end as int] is End,
            vof_list(out@) + spec_values(toks@, i as int, end as int, enc, nar, g) =~= spec_values(
                toks@,
                start as int,
                end as int,
                enc,
                nar,
                g,
            ),
        decreases end - i,
    {
        proof {
            lemma_wf_value(toks@, i as int, end as int);
            lemma_wf_nxt_v(toks@, i as int, end as int);
        }
        let ghost pre = out@;
        let v = build_value(toks, i, enc, nar, g);
        out.push(v);
        proof {
            lemma_vof_list_push(pre, v);
            let a = spec_value(toks@, i as int, enc, nar, g);
            let rest = spec_values(toks@, nxt_v(toks@, i as int, end as int), end as int, enc, nar,
                g);
            assert(spec_values(toks@, i as int, end as int, enc, nar, g) == seq![a] + rest);
            assert(vof_list(out@) =~= vof_list(pre) + seq![a]);
            assert((vof_list(pre) + seq![a]) + rest =~= vof_list(pre) + (seq![a] + rest));
        }
        i = step_v(toks, i, end);
    }
    out
}

/// Scan an object span for its fields: each key token's index, the
/// operator after it if any, and its value's index, together with the
/// index where the scan stops.
pub fn collect_fields(toks: &Vec<Token>, start: usize, end: usize, enc: TextEncoding,
    nar: Narrowing, g: bool) -> (r: (Vec<(usize, Option<Op>, usize)>, usize))
    requires
        start <= end <= toks@.len(),
        start < end ==> wf_span(toks@, start as int, end as int),
        end == toks@.len() || toks@[end as int] is End,
    ensures
        ({
            let es = spec_entries(toks@, start as int, end as int, enc, nar, g);
            &&& r.0@.len() == es.len()
            &&& forall|k: int|
                0 <= k < es.len() ==> field_ok(toks@, #[trigger] r.0@[k], es[k], enc, nar, g)
            &&& forall|k: int| 0 <= k < es.len() ==> (#[trigger] r.0@[k]).2 > start
            &&& r.1 == spec_fields_stop(toks@, start as int, end as int)
            &&& start <= r.1 <= end
            &&& (r.1 < end ==> wf_span(toks@, r.1 as int, end as int))
        }),
{
    let ghost es_loc = spec_entries(toks@, start as int, end as int, enc, nar, g);
    let mut fields: Vec<(usize, Option<Op>, usize)> = Vec::new();
    let ghost mut done: Seq<EntrySpec> = Seq::empty();
    let mut i = start;
    // collect the field positions, left to right
    while i < end && matches!(&toks[i], Token::Unquoted(_) | Token::Quoted(_) | Token::Parameter(
        _,
    ) | Token::UndefinedParameter(_))
        invariant
            start <= i <= end <= toks@.len(),
            i < end ==> wf_span(toks@, i as int, end as int),
            end == toks@.len() || toks@[end as int] is End,
            es_loc =~= done + spec_entries(toks@, i as int, end as int, enc, nar, g),
            spec_fields_stop(toks@, start as int, end as int) == spec_fields_stop(
                toks@,
                i as int,
                end as int,
            ),
            fields@.len() == done.len(),
            forall|k: int|
                0 <= k < done.len() ==> field_ok(toks@, #[trigger] fields@[k], done[k], enc, nar,
                    g),
            forall|k: int| 0 <= k < fields@.len() ==> (#[trigger] fields@[k]).2 > start,
        decreases end - i,
    {
        let f_op: Option<Op>;
        let f_vi: usize;
        if i + 1 < end {
            match &toks[i + 1] {
                Token::Operator(o) => {
                    f_op = Some(*o);
                    f_vi = i + 2;
                },
                _ => {
                    f_op = None;
                    f_vi = i + 1;
                },
            }
        } else {
            f_op = None;
            f_vi = i + 1;
        }
        proof {
            // the value position can start a value
            if (f_vi as int) < end {
                assert(wf_span(toks@, i + 1, end as int));
                if f_vi == i + 2 {
                    assert(wf_span(toks@, i + 2, end as int));
                }
            }
            lemma_wf_value(toks@, f_vi as int, end as int);
        }
        fields.push((i, f_op, f_vi));
        proof {
            assert(is_key_token(toks@[i as int]));
            assert(field_at(toks@, i as int, end as int) == (FieldSpec {
                ki: i as int,
                op: f_op,
                vi: f_vi as int,
            }));
            lemma_nxt_bounds(toks@, f_vi as int, end as int);
            let ghost rw = spec_key_raw(toks@, i as int);
            let head = EntrySpec {
                ki: i as int,
                op: f_op,
                vi: f_vi as int,
                raw: rw,
                dec: decode_of(enc, rw),
                name: spec_key_name(toks@, i as int, enc),
                val: wrap_op(f_op, spec_value(toks@, f_vi as int, enc, nar, g)),
            };
            let rest = spec_entries(
                toks@,
                nxt(toks@, f_vi as int, end as int),
                end as int,
                enc,
                nar,
                g,
            );
            assert(spec_entries(toks@, i as int, end as int, enc, nar, g) == seq![head] + rest);
            let ghost done_old = done;
            done = done.push(head);
            assert(done =~= done_old + seq![head]);
            assert((done_old + seq![head]) + rest =~= done_old + (seq![head] + rest));
            assert(es_loc =~= done + rest);
        }
        let ni = step(toks, f_vi, end);
        proof {
            if (f_vi as int) < end {
                lemma_wf_nxt(toks@, f_vi as int, end as int);
            }
            lemma_nxt_bounds(toks@, f_vi as int, end as int);
        }
        i = ni;
    }
    let stop = i;
    proof {
        assert(spec_entries(toks@, stop as int, end as int, enc, nar, g) =~= Seq::<
            EntrySpec,
        >::empty());
        assert(es_loc =~= done);
        assert(spec_fields_stop(toks@, stop as int, end as int) == stop as int);
    }
    (fields, stop)
}

/// Materialize an object span: grouped fields, then the remainder.
pub fn build_object(toks: &Vec<Token>, start: usize, end: usize, enc: TextEncoding,
    nar: Narrowing, g: bool) -> (r: Vec<(Vec<u8>, Value)>)
    requires
        start <= end <= toks@.len(),
        start < end ==> wf_span(toks@, start as int, end as int),
        end == toks@.len() || toks@[end as int] is End,
    ensures
        vof_entries(r@) == spec_obj_entries(toks@, start as int, end as int, enc, nar, g),
    decreases toks@.len() - start, 2int,
{
    let ghost es_all = spec_entries(toks@, start as int, end as int, enc, nar, g);
    let fs = collect_fields(toks, start, end, enc, nar, g);
    let fields = fs.0;
    let stop = fs.1;
    // group duplicate keys, first occurrence order
    let n = fields.len();
    let mut out: Vec<(Vec<u8>, Value)> = Vec::new();
    let mut idx: usize = 0;
    if g {
        while idx < n
            invariant
                0 <= idx <= n,
                n == fields@.len(),
                n == es_all.len(),
                forall|k: int|
                    0 <= k < n ==> field_ok(toks@, #[trigger] fields@[k], es_all[k], enc, nar, g),
                forall|k: int| 0 <= k < n ==> (#[trigger] fields@[k]).2 > start,
                spec_grouped(es_all, 0) =~= vof_entries(out@) + spec_grouped(es_all, idx as int),
            decreases n - idx,
        {
            let mut seen = false;
            let mut j: usize = 0;
            while j < idx
                invariant
                    0 <= j <= idx < n,
                    n == fields@.len(),
                    n == es_all.len(),
                    forall|k: int|
                        0 <= k < n ==> field_ok(toks@, #[trigger] fields@[k], es_all[k], enc, nar, g),
                    seen == exists|k: int| 0 <= k < j && es_all[k].raw == es_all[idx as int].raw,
                decreases idx - j,
            {
                let a = key_raw(toks, fields[j].0);
                let b = key_raw(toks, fields[idx].0);
                if bytes_eq(a.as_slice(), b.as_slice()) {
                    seen = true;
                }
                j += 1;
            }
            if !seen {
                let ghost raw = es_all[idx as int].raw;
                let mut vs: Vec<Value> = Vec::new();
                let mut k: usize = idx;
                while k < n
                    invariant
                        idx <= k <= n,
                        idx < n,
                        n == fields@.len(),
                        n == es_all.len(),
                        raw == es_all[idx as int].raw,
                        forall|m: int|
                            0 <= m < n ==> field_ok(toks@, #[trigger] fields@[m], es_all[m], enc, nar,
                                g),
                        forall|m: int| 0 <= m < n ==> (#[trigger] fields@[m]).2 > start,
                        vof_list(vs@) + group_vals(es_all, raw, k as int) =~= group_vals(
                            es_all,
                            raw,
                            idx as int,
                        ),
                    decreases n - k,
                {
                    let a = key_raw(toks, fields[k].0);
                    let b = key_raw(toks, fields[idx].0);
                    let ghost pre = vs@;
                    if bytes_eq(a.as_slice(), b.as_slice()) {
                        let v = build_entry(toks, fields[k].1, fields[k].2, enc, nar, g);
                        vs.push(v);
                        proof {
                            lemma_vof_list_push(pre, v);
                            assert(vof(v) == es_all[k as int].val);
                        }
                    }
                    k += 1;
                }
                proof {
                    lemma_vof_list_len(vs@);
                    assert(vof_list(vs@) =~= group_vals(es_all, raw, idx as int));
                }
                let gv: Value;
                if vs.len() == 1 {
                    let ghost old_vs = vs@;
                    proof {
                        lemma_vof_list_one(old_vs);
                    }
                    gv = match vs.pop() {
                        Some(v) => v,
                        None => Value::Null,
                    };
                    proof {
                        assert(gv == old_vs[0]);
                        assert(group_vals(es_all, raw, idx as int)[0] == vof(gv));
                    }
                } else {
                    gv = Value::Arr(vs);
                }
                let name = render_key(toks, fields[idx].0, enc);
                let ghost pre_out = out@;
                out.push((name, gv));
                proof {
                    lemma_vof_entries_push(pre_out, (name, gv));
                    assert(spec_grouped(es_all, idx as int) =~= seq![
                        (es_all[idx as int].name, spec_grouped_head_val(es_all, idx as int)),
                    ] + spec_grouped(es_all, idx + 1));
                    assert(vof_entries(out@) =~= vof_entries(pre_out).push(
                        (es_all[idx as int].name, spec_grouped_head_val(es_all, idx as int)),
                    ));
                }
            }
            idx += 1;
        }
        proof {
            assert(spec_grouped(es_all, n as int) =~= Seq::<(Seq<u8>, V)>::empty());
            assert(vof_entries(out@) =~= spec_grouped(es_all, 0));
        }
    } else {
        // every field as its own entry, duplicates preserved
        while idx < n
            invariant
                0 <= idx <= n,
                n == fields@.len(),
                n == es_all.len(),
                forall|k: int|
                    0 <= k < n ==> field_ok(toks@, #[trigger] fields@[k], es_all[k], enc, nar, g),
                forall|k: int| 0 <= k < n ==> (#[trigger] fields@[k]).2 > start,
                spec_ungrouped(es_all, 0) =~= vof_entries(out@) + spec_ungrouped(
                    es_all,
                    idx as int,
                ),
            decreases n - idx,
        {
            let v = build_entry(toks, fields[idx].1, fields[idx].2, enc, nar, g);
            let name = render_key(toks, fields[idx].0, enc);
            let ghost pre_out = out@;
            out.push((name, v));
            proof {
                lemma_vof_entries_push(pre_out, (name, v));
                assert(spec_ungrouped(es_all, idx as int) =~= seq![
                    (es_all[idx as int].name, es_all[idx as int].val),
                ] + spec_ungrouped(es_all, idx + 1));
                assert(vof_entries(out@) =~= vof_entries(pre_out).push(
                    (es_all[idx as int].name, es_all[idx as int].val),
                ));
            }
            idx += 1;
        }
        proof {
            assert(spec_ungrouped(es_all, n as int) =~= Seq::<(Seq<u8>, V)>::empty());
            assert(vof_entries(out@) =~= spec_ungrouped(es_all, 0));
        }
    }
    // the remainder: trailing tokens that pair into no field
    let r0: usize = if stop < end && matches!(&toks[stop], Token::Mixed) {
        stop + 1
    } else {
        stop
    };
    proof {
        assert(r0 as int == spec_rem_start(toks@, start as int, end as int));
        if r0 < end {
            assert(wf_span(toks@, r0 as int, end as int));
        }
    }
    let rem = build_values(toks, r0, end, enc, nar, g);
    proof {
        lemma_vof_list_len(rem@);
    }
    if rem.len() > 0 {
        proof {
            reveal_strlit("remainder");
        }
        let name: Vec<u8> = vec![114, 101, 109, 97, 105, 110, 100, 101, 114];
        proof {
            assert(name@ =~= spec_bytes("remainder"));
        }
        let ghost pre_out = out@;
        out.push((name, Value::Arr(rem)));
        proof {
            lemma_vof_entries_push(pre_out, (name, Value::Arr(rem)));
            assert(vof_entries(out@) =~= spec_obj_entries(toks@, start as int, end as int, enc,
                nar, g));
        }
    } else {
        proof {
            assert(vof_entries(out@) =~= spec_obj_entries(toks@, start as int, end as int, enc,
                nar, g));
        }
    }
    out
}

/// The single value or value array that one key's group renders as.
pub open spec fn spec_grouped_head_val(es: Seq<EntrySpec>, i: int) -> V {
    let vs = group_vals(es, es[i].raw, i);
    if vs.len() == 1 {
        vs[0]
    } else {
        V::Arr(vs)
    }
}


/// The indices of first key occurrences from `i` on, in order.
pub open spec fn first_occ(es: Seq<EntrySpec>, i: int) -> Seq<int>
    decreases es.len() - i when i >= 0
{
    if i >= es.len() {
        Seq::empty()
    } else if seen_before(es, i) {
        first_occ(es, i + 1)
    } else {
        seq![i] + first_occ(es, i + 1)
    }
}

pub proof fn lemma_first_occ_bounds(es: Seq<EntrySpec>, i: int)
    requires
        0 <= i,
    ensures
        forall|m: int|
            0 <= m < first_occ(es, i).len() ==> i <= #[trigger] first_occ(es, i)[m] < es.len(),
        forall|m1: int, m2: int|
            0 <= m1 < m2 < first_occ(es, i).len() ==> #[trigger] first_occ(es, i)[m1]
                < #[trigger] first_occ(es, i)[m2],
    decreases es.len() - i,
{
    if i < es.len() {
        lemma_first_occ_bounds(es, i + 1);
        assert forall|m: int|
            0 <= m < first_occ(es, i).len() implies i <= #[trigger] first_occ(es, i)[m]
            < es.len() by {
            if seen_before(es, i) {
                assert(first_occ(es, i)[m] == first_occ(es, i + 1)[m]);
                assert(i + 1 <= first_occ(es, i + 1)[m] < es.len());
            } else if m == 0 {
                assert(first_occ(es, i)[0] == i);
            } else {
                assert(first_occ(es, i)[m] == first_occ(es, i + 1)[m - 1]);
                assert(i + 1 <= first_occ(es, i + 1)[m - 1] < es.len());
            }
        }
        assert forall|m1: int, m2: int|
            0 <= m1 < m2 < first_occ(es, i).len() implies #[trigger] first_occ(es, i)[m1]
            < #[trigger] first_occ(es, i)[m2] by {
            if seen_before(es, i) {
                assert(first_occ(es, i)[m1] == first_occ(es, i + 1)[m1]);
                assert(first_occ(es, i)[m2] == first_occ(es, i + 1)[m2]);
                assert(first_occ(es, i + 1)[m1] < first_occ(es, i + 1)[m2]);
            } else if m1 == 0 {
                assert(first_occ(es, i)[m1] == i);
                assert(first_occ(es, i)[m2] == first_occ(es, i + 1)[m2 - 1]);
                assert(i + 1 <= first_occ(es, i + 1)[m2 - 1] < es.len());
            } else {
                assert(first_occ(es, i)[m1] == first_occ(es, i + 1)[m1 - 1]);
                assert(first_occ(es, i)[m2] == first_occ(es, i + 1)[m2 - 1]);
                assert(first_occ(es, i + 1)[m1 - 1] < first_occ(es, i + 1)[m2 - 1]);
            }
        }
    }
}

/// Every container with zero entries materializes as the empty keyed
/// structure, never as an empty sequence: the grammar cannot tell an
/// empty array from an empty object apart.
pub proof fn lemma_empty_container_keyed(toks: Seq<Token>, i: int, enc: TextEncoding,
    nar: Narrowing, g: bool)
    requires
        0 <= i < toks.len(),
        i + 1 <= toks.len(),
        (toks[i] is Array && toks[i]->Array_0 == i + 1) || (toks[i] is Object && toks[i]->Object_0
            == i + 1),
    ensures
        spec_value(toks, i, enc, nar, g) == V::Obj(Seq::<(Seq<u8>, V)>::empty()),
{
    if toks[i] is Array {
        assert(spec_values(toks, i + 1, i + 1, enc, nar, g) =~= Seq::<V>::empty());
    } else {
        assert(spec_entries(toks, i + 1, i + 1, enc, nar, g) =~= Seq::<EntrySpec>::empty());
        assert(spec_fields_stop(toks, i + 1, i + 1) == i + 1);
        assert(spec_values(toks, i + 1, i + 1, enc, nar, g) =~= Seq::<V>::empty());
        assert(spec_obj_entries(toks, i + 1, i + 1, enc, nar, g) =~= Seq::<(Seq<u8>, V)>::empty());
    }
}

/// A key's grouped values from its first occurrence are all of its
/// values.
pub proof fn lemma_group_vals_from_start(es: Seq<EntrySpec>, raw: Seq<u8>, j: int, i: int)
    requires
        0 <= j <= i <= es.len(),
        forall|m: int| j <= m < i ==> !(#[trigger] es[m].raw == raw),
    ensures
        group_vals(es, raw, j) == group_vals(es, raw, i),
    decreases i - j,
{
    if j < i {
        lemma_group_vals_from_start(es, raw, j + 1, i);
    }
}

/// Duplicate-key handling, both modes, exactly.
///
/// Grouped output holds one field for every distinct key, in order of
/// each key's first occurrence: the field carries the key's single
/// value when it occurs once, and the ordered array of all its
/// occurrences' values when it occurs more than once. Distinct fields
/// of grouped output come from distinct key bytes. Preserved output
/// instead holds every occurrence as its own entry, in stream order.
pub proof fn lemma_duplicate_keys(es: Seq<EntrySpec>)
    ensures
        spec_grouped(es, 0).len() == first_occ(es, 0).len(),
        forall|m: int|
            0 <= m < first_occ(es, 0).len() ==> #[trigger] spec_grouped(es, 0)[m] == (
            es[first_occ(es, 0)[m]].name,
            spec_grouped_head_val(es, first_occ(es, 0)[m]),
            ),
        forall|m1: int, m2: int|
            0 <= m1 < m2 < first_occ(es, 0).len() ==> es[#[trigger] first_occ(es, 0)[m1]].raw
                != es[#[trigger] first_occ(es, 0)[m2]].raw,
        forall|m: int|
            0 <= m < first_occ(es, 0).len() ==> group_vals(
                es,
                es[#[trigger] first_occ(es, 0)[m]].raw,
                first_occ(es, 0)[m],
            ) == group_vals(es, es[first_occ(es, 0)[m]].raw, 0),
        spec_ungrouped(es, 0).len() == es.len(),
        forall|k: int|
            0 <= k < es.len() ==> #[trigger] spec_ungrouped(es, 0)[k] == (es[k].name, es[k].val),
{
    lemma_grouped_shape(es, 0);
    lemma_first_occ_bounds(es, 0);
    lemma_ungrouped_shape(es, 0);
    assert forall|k: int|
        0 <= k < es.len() implies #[trigger] spec_ungrouped(es, 0)[k] == (es[k].name, es[k].val)
        by {
        assert(spec_ungrouped(es, 0)[k] == (es[k + 0].name, es[k + 0].val));
    }
    assert forall|m: int|
        0 <= m < first_occ(es, 0).len() implies group_vals(
        es,
        es[#[trigger] first_occ(es, 0)[m]].raw,
        first_occ(es, 0)[m],
    ) == group_vals(es, es[first_occ(es, 0)[m]].raw, 0) by {
        let k = first_occ(es, 0)[m];
        lemma_first_occ_not_seen(es, 0, m);
        lemma_group_vals_from_start(es, es[k].raw, 0, k);
    }
    assert forall|m1: int, m2: int|
        0 <= m1 < m2 < first_occ(es, 0).len() implies es[#[trigger] first_occ(es, 0)[m1]].raw
        != es[#[trigger] first_occ(es, 0)[m2]].raw by {
        let k1 = first_occ(es, 0)[m1];
        let k2 = first_occ(es, 0)[m2];
        lemma_first_occ_not_seen(es, 0, m2);
        if es[k1].raw == es[k2].raw {
            assert(seen_before(es, k2));
        }
    }
}

/// Every listed first occurrence is indeed no repeat of an earlier
/// key.
pub proof fn lemma_first_occ_not_seen(es: Seq<EntrySpec>, i: int, m: int)
    requires
        0 <= i,
        0 <= m < first_occ(es, i).len(),
    ensures
        first_occ(es, i)[m] < es.len(),
        !seen_before(es, first_occ(es, i)[m]),
    decreases es.len() - i,
{
    if i < es.len() {
        if seen_before(es, i) {
            lemma_first_occ_not_seen(es, i + 1, m);
        } else {
            if m > 0 {
                lemma_first_occ_not_seen(es, i + 1, m - 1);
            }
        }
    }
}

/// Grouped output, field by field.
pub proof fn lemma_grouped_shape(es: Seq<EntrySpec>, i: int)
    requires
        0 <= i,
    ensures
        spec_grouped(es, i).len() == first_occ(es, i).len(),
        forall|m: int|
            0 <= m < first_occ(es, i).len() ==> #[trigger] spec_grouped(es, i)[m] == (
            es[first_occ(es, i)[m]].name,
            spec_grouped_head_val(es, first_occ(es, i)[m]),
            ),
    decreases es.len() - i,
{
    if i < es.len() {
        lemma_grouped_shape(es, i + 1);
        if !seen_before(es, i) {
            assert forall|m: int|
                0 <= m < first_occ(es, i).len() implies #[trigger] spec_grouped(es, i)[m] == (
                es[first_occ(es, i)[m]].name,
                spec_grouped_head_val(es, first_occ(es, i)[m]),
            ) by {
                if m > 0 {
                    assert(first_occ(es, i)[m] == first_occ(es, i + 1)[m - 1]);
                    assert(spec_grouped(es, i)[m] == spec_grouped(es, i + 1)[m - 1]);
                }
            }
        }
    }
}

/// Preserved output, entry by entry.
pub proof fn lemma_ungrouped_shape(es: Seq<EntrySpec>, i: int)
    requires
        0 <= i <= es.len(),
    ensures
        spec_ungrouped(es, i).len() == es.len() - i,
        forall|m: int|
            0 <= m < es.len() - i ==> #[trigger] spec_ungrouped(es, i)[m] == (
            es[m + i].name,
            es[m + i].val,
            ),
    decreases es.len() - i,
{
    if i < es.len() {
        lemma_ungrouped_shape(es, i + 1);
        assert forall|m: int|
            0 <= m < es.len() - i implies #[trigger] spec_ungrouped(es, i)[m] == (
            es[m + i].name,
            es[m + i].val,
        ) by {
            if m == 0 {
                assert(spec_ungrouped(es, i)[0] == (es[i].name, es[i].val));
            } else {
                assert(spec_ungrouped(es, i)[m] == spec_ungrouped(es, i + 1)[m - 1]);
                assert(spec_ungrouped(es, i + 1)[m - 1] == (es[(m - 1) + (i + 1)].name, es[(m - 1)
                    + (i + 1)].val));
            }
        }
    }
}

/// A value preceded by a relational operator materializes as a
/// single-entry mapping whose key is the operator's canonical name
/// and whose value is the materialized operand.
pub proof fn lemma_operator_wrapping(toks: Seq<Token>, start: int, end: int, enc: TextEncoding,
    nar: Narrowing, g: bool, k: int)
    requires
        0 <= start,
        end <= toks.len(),
        0 <= k < spec_entries(toks, start, end, enc, nar, g).len(),
        spec_entries(toks, start, end, enc, nar, g)[k].op is Some,
    ensures
        ({
            let e = spec_entries(toks, start, end, enc, nar, g)[k];
            e.val == V::Obj(
                seq![(e.op->Some_0.spec_name(), spec_value(toks, e.vi, enc, nar, g))],
            )
        }),
{
    lemma_entries_shape(toks, start, end, enc, nar, g, k);
}

/// Every entry of an object span carries its operator-wrapped
/// materialized value.
pub proof fn lemma_entries_shape(toks: Seq<Token>, start: int, end: int, enc: TextEncoding,
    nar: Narrowing, g: bool, k: int)
    requires
        0 <= start,
        end <= toks.len(),
        0 <= k < spec_entries(toks, start, end, enc, nar, g).len(),
    ensures
        ({
            let e = spec_entries(toks, start, end, enc, nar, g)[k];
            e.val == wrap_op(e.op, spec_value(toks, e.vi, enc, nar, g))
        }),
    decreases end - start,
{
    if !(start >= end || !is_key_token(toks[start])) {
        if k > 0 {
            let f = field_at(toks, start, end);
            lemma_nxt_bounds(toks, f.vi, end);
            lemma_entries_shape(toks, nxt(toks, f.vi, end), end, enc, nar, g, k - 1);
        }
    }
}

/// Materialize a whole stream into its root object.
pub fn materialize(toks: &Vec<Token>, enc: TextEncoding, nar: Narrowing, g: bool) -> (r: Value)
    requires
        wf(toks@),
    ensures
        vof(r) == spec_root(toks@, enc, nar, g),
{
    let es = build_object(toks, 0, toks.len(), enc, nar, g);
    Value::Obj(es)
}

} // verus!
