//! The materialized value tree and scalar coercion.
//!
//! `Value` is the host-native tree a document materializes into; `V` is
//! its mathematical shape, used by every contract. `coerce_scalar`
//! turns one scalar's bytes into a leaf value under the narrowing
//! policy: boolean first, then exact integers, then an exactly
//! representable float, then a date, else decoded text.

use vstd::prelude::*;
use crate::date::{GameDate, spec_parse_date, parse_date};
use crate::scalar::{TextEncoding, Narrowing, decode_of, decode_text, fdec_of, float_repr, is_yes,
    is_no, parse_bool, parse_i64, parse_u64, i64_ok, i64_sign, i64_digits, u64_ok, u64_digits,
    dec_val};

verus! {

/// A node of the materialized tree.
#[derive(Debug, PartialEq)]
pub enum Value {
    /// A token with no value reading (a stray operator or close).
    Null,
    /// A boolean scalar.
    Bool(bool),
    /// A signed integer scalar.
    I64(i64),
    /// An unsigned integer scalar that does not fit the signed form.
    U64(u64),
    /// A float scalar, held as its canonical decimal text.
    F64(Vec<u8>),
    /// A date scalar.
    Date(GameDate),
    /// A text scalar, decoded.
    Str(Vec<u8>),
    /// An ordered sequence of values.
    Arr(Vec<Value>),
    /// An ordered mapping from decoded keys to values.
    Obj(Vec<(Vec<u8>, Value)>),
}

/// The mathematical shape of a `Value`.
#[verifier::ext_equal]
pub enum V {
    Null,
    Bool(bool),
    I64(i64),
    U64(u64),
    F64(Seq<u8>),
    Date(GameDate),
    Str(Seq<u8>),
    Arr(Seq<V>),
    Obj(Seq<(Seq<u8>, V)>),
}

/// The shape of a value.
pub open spec fn vof(v: Value) -> V
    decreases v,
{
    match v {
        Value::Null => V::Null,
        Value::Bool(b) => V::Bool(b),
        Value::I64(x) => V::I64(x),
        Value::U64(x) => V::U64(x),
        Value::F64(t) => V::F64(t@),
        Value::Date(d) => V::Date(d),
        Value::Str(t) => V::Str(t@),
        Value::Arr(xs) => V::Arr(vof_list(xs@)),
        Value::Obj(es) => V::Obj(vof_entries(es@)),
    }
}

/// The shapes of a list of values.
pub open spec fn vof_list(xs: Seq<Value>) -> Seq<V>
    decreases xs,
{
    if xs.len() == 0 {
        Seq::empty()
    } else {
        vof_list(xs.drop_last()).push(vof(xs.last()))
    }
}

/// The shapes of a list of object entries.
pub open spec fn vof_entries(es: Seq<(Vec<u8>, Value)>) -> Seq<(Seq<u8>, V)>
    decreases es,
{
    if es.len() == 0 {
        Seq::empty()
    } else {
        vof_entries(es.drop_last()).push((es.last().0@, vof(es.last().1)))
    }
}

pub proof fn lemma_vof_list_len(xs: Seq<Value>)
    ensures
        vof_list(xs).len() == xs.len(),
    decreases xs,
{
    if xs.len() > 0 {
        lemma_vof_list_len(xs.drop_last());
    }
}

pub proof fn lemma_vof_list_index(xs: Seq<Value>, i: int)
    requires
        0 <= i < xs.len(),
    ensures
        vof_list(xs).len() == xs.len(),
        vof_list(xs)[i] == vof(xs[i]),
    decreases xs,
{
    lemma_vof_list_len(xs);
    if i < xs.len() - 1 {
        lemma_vof_list_index(xs.drop_last(), i);
    }
}

pub proof fn lemma_vof_entries_len(es: Seq<(Vec<u8>, Value)>)
    ensures
        vof_entries(es).len() == es.len(),
    decreases es,
{
    if es.len() > 0 {
        lemma_vof_entries_len(es.drop_last());
    }
}

pub proof fn lemma_vof_entries_index(es: Seq<(Vec<u8>, Value)>, i: int)
    requires
        0 <= i < es.len(),
    ensures
        vof_entries(es).len() == es.len(),
        vof_entries(es)[i] == (es[i].0@, vof(es[i].1)),
    decreases es,
{
    lemma_vof_entries_len(es);
    if i < es.len() - 1 {
        lemma_vof_entries_index(es.drop_last(), i);
    }
}

/// Whether the policy leaves these scalar bytes as text.
pub open spec fn no_coerce(quoted: bool, nar: Narrowing) -> bool {
    nar is Never || (quoted && nar is UnquotedOnly)
}

/// The leaf value that one scalar's bytes coerce to.
pub open spec fn spec_coerce(s: Seq<u8>, quoted: bool, nar: Narrowing, enc: TextEncoding) -> V {
    if no_coerce(quoted, nar) {
        V::Str(decode_of(enc, s))
    } else if is_yes(s) {
        V::Bool(true)
    } else if is_no(s) {
        V::Bool(false)
    } else if fdec_of(s) is Some {
        if i64_ok(s) {
            V::I64((i64_sign(s) * dec_val(i64_digits(s))) as i64)
        } else if u64_ok(s) {
            V::U64(dec_val(u64_digits(s)) as u64)
        } else {
            V::F64(fdec_of(s)->Some_0)
        }
    } else if spec_parse_date(s) is Some {
        V::Date(spec_parse_date(s)->Some_0)
    } else {
        V::Str(decode_of(enc, s))
    }
}

/// Coerce one scalar's bytes under the narrowing policy.
pub fn coerce_scalar(bytes: &[u8], quoted: bool, nar: Narrowing, enc: TextEncoding) -> (r: Value)
    ensures
        vof(r) == spec_coerce(bytes@, quoted, nar, enc),
{
    proof {
        reveal_strlit("yes");
        reveal_strlit("no");
    }
    let skip = match nar {
        Narrowing::Never => true,
        Narrowing::UnquotedOnly => quoted,
        Narrowing::All => false,
    };
    if skip {
        return Value::Str(decode_text(enc, bytes));
    }
    match parse_bool(bytes) {
        Some(b) => {
            return Value::Bool(b);
        },
        None => {},
    }
    match float_repr(bytes) {
        Some(repr) => {
            match parse_i64(bytes) {
                Some(v) => {
                    return Value::I64(v);
                },
                None => {},
            }
            match parse_u64(bytes) {
                Some(v) => {
                    return Value::U64(v);
                },
                None => {},
            }
            return Value::F64(repr);
        },
        None => {},
    }
    match parse_date(bytes) {
        Some(d) => {
            return Value::Date(d);
        },
        None => {},
    }
    Value::Str(decode_text(enc, bytes))
}

/// Two byte strings hold the same bytes.
pub fn bytes_eq(a: &[u8], b: &[u8]) -> (r: bool)
    ensures
        r == (a@ =~= b@),
{
    if a.len() != b.len() {
        return false;
    }
    let mut i: usize = 0;
    while i < a.len()
        invariant
            0 <= i <= a@.len(),
            a@.len() == b@.len(),
            forall|j: int| 0 <= j < i ==> a@[j] == b@[j],
        decreases a@.len() - i,
    {
        if a[i] != b[i] {
            return false;
        }
        i += 1;
    }
    true
}

/// The rendered text of a macro parameter used as a key: the decoded
/// name in brackets, with a `!` marking an undefined parameter.
pub open spec fn spec_param_text(name: Seq<u8>, defined: bool) -> Seq<u8> {
    if defined {
        seq![91u8] + name + seq![93u8]
    } else {
        seq![91u8, 33u8] + name + seq![93u8]
    }
}

/// Render a macro parameter's decoded name as key text.
pub fn param_text(name: &[u8], defined: bool) -> (r: Vec<u8>)
    ensures
        r@ == spec_param_text(name@, defined),
{
    let mut out: Vec<u8> = Vec::new();
    out.push(91);
    if !defined {
        out.push(33);
    }
    let mut i: usize = 0;
    while i < name.len()
        invariant
            0 <= i <= name@.len(),
            out@ =~= (if defined {
                seq![91u8]
            } else {
                seq![91u8, 33u8]
            }) + name@.subrange(0, i as int),
        decreases name@.len() - i,
    {
        out.push(name[i]);
        proof {
            assert(name@.subrange(0, i + 1) =~= name@.subrange(0, i as int).push(name@[i as int]));
        }
        i += 1;
    }
    out.push(93);
    proof {
        assert(name@.subrange(0, name@.len() as int) =~= name@);
        assert(out@ =~= spec_param_text(name@, defined));
    }
    out
}

} // verus!
