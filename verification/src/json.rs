//! JSON rendering of a document, under a selectable duplicate-key
//! disambiguation mode.
//!
//! `Group` renders the grouped tree: one field per key, repeated keys
//! holding an ordered array. `Preserve` renders every occurrence as
//! its own key/value pair, keeping an exact positional record.
//! `Typed` also preserves every occurrence and wraps every container
//! as a `{"type", "val"}` envelope, objects as ordered key/value
//! pairs, so that nothing of the original structure is lost.

use vstd::prelude::*;
use crate::date::{GameDate, spec_date_bytes, push_date};
use crate::materialize::{materialize, spec_root};
use crate::scalar::{TextEncoding, Narrowing, dec_bytes, dec_bytes_signed, push_i64_dec,
    push_u64_dec};
use crate::token::{Token, spec_bytes, wf};
use crate::value::{V, Value, vof, vof_list, vof_entries, lemma_vof_list_index,
    lemma_vof_entries_index};

verus! {

/// How duplicate keys are rendered in JSON text.
#[derive(Debug, Clone, Copy, PartialEq, Eq, Structural)]
pub enum DisambiguateMode {
    /// One field per key; repeated keys hold an ordered array.
    Group,
    /// Every occurrence is its own ordered key/value pair.
    Preserve,
    /// Every occurrence kept, every container in a typed envelope.
    Typed,
}

/// A lowercase hexadecimal digit.
pub open spec fn hex_digit(n: int) -> u8 {
    if n < 10 {
        (48 + n) as u8
    } else {
        (87 + n) as u8
    }
}

/// The JSON escape of one text byte: quote and backslash escaped,
/// control bytes in their short or `\u00..` form, all else verbatim.
pub open spec fn esc_json_byte(b: u8) -> Seq<u8> {
    if b == 34 {
        seq![92u8, 34u8]
    } else if b == 92 {
        seq![92u8, 92u8]
    } else if b == 8 {
        seq![92u8, 98u8]
    } else if b == 12 {
        seq![92u8, 102u8]
    } else if b == 10 {
        seq![92u8, 110u8]
    } else if b == 13 {
        seq![92u8, 114u8]
    } else if b == 9 {
        seq![92u8, 116u8]
    } else if b < 32 {
        seq![92u8, 117u8, 48u8, 48u8, hex_digit(b as int / 16), hex_digit(b as int % 16)]
    } else {
        seq![b]
    }
}

/// The JSON escape of text bytes.
pub open spec fn esc_json(s: Seq<u8>) -> Seq<u8>
    decreases s.len(),
{
    if s.len() == 0 {
        Seq::empty()
    } else {
        esc_json(s.drop_last()) + esc_json_byte(s.last())
    }
}

/// A JSON string literal: quoted, escaped text.
pub open spec fn json_str(s: Seq<u8>) -> Seq<u8> {
    seq![34u8] + esc_json(s) + seq![34u8]
}

/// The JSON text of one value.
///
/// Scalars render as JSON primitives, a date as its dotted literal in
/// quotes, a float as its canonical decimal text. Under the typed
/// envelope every array and object is wrapped as
/// `{"type":...,"val":...}` with object fields as two-element arrays.
pub open spec fn json_of(v: V, typed: bool) -> Seq<u8>
    decreases v, 0int,
{
    match v {
        V::Null => spec_bytes("null"),
        V::Bool(b) => if b {
            spec_bytes("true")
        } else {
            spec_bytes("false")
        },
        V::I64(x) => dec_bytes_signed(x as int),
        V::U64(x) => dec_bytes(x as int),
        V::F64(t) => t,
        V::Date(d) => seq![34u8] + spec_date_bytes(d) + seq![34u8],
        V::Str(s) => json_str(s),
        V::Arr(vs) => if typed {
            spec_bytes("{\"type\":\"array\",\"val\":[") + json_list(vs, typed, 0) + spec_bytes(
                "]}",
            )
        } else {
            seq![91u8] + json_list(vs, typed, 0) + seq![93u8]
        },
        V::Obj(es) => if typed {
            spec_bytes("{\"type\":\"obj\",\"val\":[") + json_pairs(es, typed, 0) + spec_bytes(
                "]}",
            )
        } else {
            seq![123u8] + json_fields(es, typed, 0) + seq![125u8]
        },
    }
}

/// Comma-joined JSON texts of array elements from `i` on.
pub open spec fn json_list(vs: Seq<V>, typed: bool, i: int) -> Seq<u8>
    decreases vs, vs.len() - i, 1int,
{
    if i < 0 || i >= vs.len() {
        Seq::empty()
    } else if i + 1 == vs.len() {
        json_of(vs[i], typed)
    } else {
        json_of(vs[i], typed) + seq![44u8] + json_list(vs, typed, i + 1)
    }
}

/// Comma-joined `"key":value` fields from `i` on.
pub open spec fn json_fields(es: Seq<(Seq<u8>, V)>, typed: bool, i: int) -> Seq<u8>
    decreases es, es.len() - i, 1int,
{
    if i < 0 || i >= es.len() {
        Seq::empty()
    } else if i + 1 == es.len() {
        json_str(es[i].0) + seq![58u8] + json_of(es[i].1, typed)
    } else {
        json_str(es[i].0) + seq![58u8] + json_of(es[i].1, typed) + seq![44u8] + json_fields(
            es,
            typed,
            i + 1,
        )
    }
}

/// Comma-joined `["key",value]` pairs from `i` on.
pub open spec fn json_pairs(es: Seq<(Seq<u8>, V)>, typed: bool, i: int) -> Seq<u8>
    decreases es, es.len() - i, 1int,
{
    if i < 0 || i >= es.len() {
        Seq::empty()
    } else if i + 1 == es.len() {
        seq![91u8] + json_str(es[i].0) + seq![44u8] + json_of(es[i].1, typed) + seq![93u8]
    } else {
        seq![91u8] + json_str(es[i].0) + seq![44u8] + json_of(es[i].1, typed) + seq![93u8]
            + seq![44u8] + json_pairs(es, typed, i + 1)
    }
}

/// Append the JSON escape of text bytes.
fn push_esc_json(out: &mut Vec<u8>, s: &[u8])
    ensures
        final(out)@ == old(out)@ + esc_json(s@),
{
    let mut i: usize = 0;
    while i < s.len()
        invariant
            0 <= i <= s@.len(),
            out@ =~= old(out)@ + esc_json(s@.subrange(0, i as int)),
        decreases s@.len() - i,
    {
        let b = s[i];
        if b == 34 {
            out.push(92);
            out.push(34);
        } else if b == 92 {
            out.push(92);
            out.push(92);
        } else if b == 8 {
            out.push(92);
            out.push(98);
        } else if b == 12 {
            out.push(92);
            out.push(102);
        } else if b == 10 {
            out.push(92);
            out.push(110);
        } else if b == 13 {
            out.push(92);
            out.push(114);
        } else if b == 9 {
            out.push(92);
            out.push(116);
        } else if b < 32 {
            out.push(92);
            out.push(117);
            out.push(48);
            out.push(48);
            let hi = b / 16;
            let lo = b % 16;
            out.push(if hi < 10 {
                48 + hi
            } else {
                87 + hi
            });
            out.push(if lo < 10 {
                48 + lo
            } else {
                87 + lo
            });
        } else {
            out.push(b);
        }
        proof {
            let pre = s@.subrange(0, i as int);
            assert(s@.subrange(0, i + 1) =~= pre.push(b));
            assert(pre.push(b).drop_last() =~= pre);
            assert(out@ =~= old(out)@ + esc_json(s@.subrange(0, i + 1)));
        }
        i += 1;
    }
    proof {
        assert(s@.subrange(0, s@.len() as int) =~= s@);
    }
}

/// Append a JSON string literal.
fn push_json_str(out: &mut Vec<u8>, s: &[u8])
    ensures
        final(out)@ == old(out)@ + json_str(s@),
{
    out.push(34);
    push_esc_json(out, s);
    out.push(34);
    proof {
        assert(final(out)@ =~= old(out)@ + json_str(s@));
    }
}

/// Append an ASCII literal.
fn push_lit(out: &mut Vec<u8>, s: &[u8])
    ensures
        final(out)@ == old(out)@ + s@,
{
    let mut i: usize = 0;
    while i < s.len()
        invariant
            0 <= i <= s@.len(),
            out@ =~= old(out)@ + s@.subrange(0, i as int),
        decreases s@.len() - i,
    {
        out.push(s[i]);
        proof {
            assert(out@ =~= old(out)@ + s@.subrange(0, i + 1));
        }
        i += 1;
    }
    proof {
        assert(s@.subrange(0, s@.len() as int) =~= s@);
    }
}

/// Append the JSON text of one value.
fn render_value(out: &mut Vec<u8>, v: &Value, typed: bool)
    ensures
        final(out)@ == old(out)@ + json_of(vof(*v), typed),
    decreases v, 0int,
{
    match v {
        Value::Null => {
            proof {
                reveal_strlit("null");
            }
            let lit: Vec<u8> = vec![110, 117, 108, 108];
            proof {
                assert(lit@ =~= spec_bytes("null"));
            }
            push_lit(out, lit.as_slice());
        },
        Value::Bool(b) => {
            proof {
                reveal_strlit("true");
                reveal_strlit("false");
            }
            if *b {
                let lit: Vec<u8> = vec![116, 114, 117, 101];
                proof {
                    assert(lit@ =~= spec_bytes("true"));
                }
                push_lit(out, lit.as_slice());
            } else {
                let lit: Vec<u8> = vec![102, 97, 108, 115, 101];
                proof {
                    assert(lit@ =~= spec_bytes("false"));
                }
                push_lit(out, lit.as_slice());
            }
        },
        Value::I64(x) => {
            push_i64_dec(out, *x);
        },
        Value::U64(x) => {
            push_u64_dec(out, *x);
        },
        Value::F64(t) => {
            push_lit(out, t.as_slice());
        },
        Value::Date(d) => {
            out.push(34);
            push_date(out, d);
            out.push(34);
            proof {
                assert(final(out)@ =~= old(out)@ + (seq![34u8] + spec_date_bytes(*d)
                    + seq![34u8]));
            }
        },
        Value::Str(s) => {
            push_json_str(out, s.as_slice());
        },
        Value::Arr(vs) => {
            if typed {
                proof {
                    reveal_strlit("{\"type\":\"array\",\"val\":[");
                    reveal_strlit("]}");
                }
                let open: Vec<u8> = vec![
                    123, 34, 116, 121, 112, 101, 34, 58, 34, 97, 114, 114, 97, 121, 34, 44, 34,
                    118, 97, 108, 34, 58, 91,
                ];
                proof {
                    assert(open@ =~= spec_bytes("{\"type\":\"array\",\"val\":["));
                }
                push_lit(out, open.as_slice());
                render_list(out, vs, typed);
                out.push(93);
                out.push(125);
                proof {
                    assert(final(out)@ =~= old(out)@ + json_of(vof(*v), typed));
                }
            } else {
                out.push(91);
                render_list(out, vs, typed);
                out.push(93);
                proof {
                    assert(final(out)@ =~= old(out)@ + json_of(vof(*v), typed));
                }
            }
        },
        Value::Obj(es) => {
            if typed {
                proof {
                    reveal_strlit("{\"type\":\"obj\",\"val\":[");
                    reveal_strlit("]}");
                }
                let open: Vec<u8> = vec![
                    123, 34, 116, 121, 112, 101, 34, 58, 34, 111, 98, 106, 34, 44, 34, 118, 97,
                    108, 34, 58, 91,
                ];
                proof {
                    assert(open@ =~= spec_bytes("{\"type\":\"obj\",\"val\":["));
                }
                push_lit(out, open.as_slice());
                render_pairs(out, es, typed);
                out.push(93);
                out.push(125);
                proof {
                    assert(final(out)@ =~= old(out)@ + json_of(vof(*v), typed));
                }
            } else {
                out.push(123);
                render_fields(out, es, typed);
                out.push(125);
                proof {
                    assert(final(out)@ =~= old(out)@ + json_of(vof(*v), typed));
                }
            }
        },
    }
}

/// Append the comma-joined JSON texts of array elements.
fn render_list(out: &mut Vec<u8>, vs: &Vec<Value>, typed: bool)
    ensures
        final(out)@ == old(out)@ + json_list(vof_list(vs@), typed, 0),
    decreases vs, 1int,
{
    let n = vs.len();
    let mut i: usize = 0;
    proof {
        crate::value::lemma_vof_list_len(vs@);
    }
    while i < n
        invariant
            0 <= i <= n,
            n == vs@.len(),
            vof_list(vs@).len() == n,
            json_list(vof_list(vs@), typed, 0) =~= out@.skip(old(out)@.len() as int) + json_list(
                vof_list(vs@),
                typed,
                i as int,
            ),
            out@.len() >= old(out)@.len(),
            out@.subrange(0, old(out)@.len() as int) =~= old(out)@,
        decreases n - i,
    {
        proof {
            lemma_vof_list_index(vs@, i as int);
        }
        let ghost pre = out@;
        render_value(out, &vs[i], typed);
        if i + 1 < n {
            out.push(44);
        }
        proof {
            assert(out@.subrange(0, old(out)@.len() as int) =~= old(out)@);
            if i + 1 < n {
                assert(json_list(vof_list(vs@), typed, i as int) == json_of(
                    vof_list(vs@)[i as int],
                    typed,
                ) + seq![44u8] + json_list(vof_list(vs@), typed, i + 1));
                assert(out@.skip(old(out)@.len() as int) =~= pre.skip(old(out)@.len() as int)
                    + json_of(vof(vs@[i as int]), typed) + seq![44u8]);
            } else {
                assert(json_list(vof_list(vs@), typed, i as int) == json_of(
                    vof_list(vs@)[i as int],
                    typed,
                ));
                assert(out@.skip(old(out)@.len() as int) =~= pre.skip(old(out)@.len() as int)
                    + json_of(vof(vs@[i as int]), typed));
            }
            assert(json_list(vof_list(vs@), typed, 0) =~= out@.skip(old(out)@.len() as int)
                + json_list(vof_list(vs@), typed, i + 1));
        }
        i += 1;
    }
    proof {
        assert(json_list(vof_list(vs@), typed, n as int) =~= Seq::<u8>::empty());
        assert(out@ =~= out@.subrange(0, old(out)@.len() as int) + out@.skip(
            old(out)@.len() as int,
        ));
        assert(final(out)@ =~= old(out)@ + json_list(vof_list(vs@), typed, 0));
    }
}

/// Append the comma-joined `"key":value` fields of an object.
fn render_fields(out: &mut Vec<u8>, es: &Vec<(Vec<u8>, Value)>, typed: bool)
    ensures
        final(out)@ == old(out)@ + json_fields(vof_entries(es@), typed, 0),
    decreases es, 1int,
{
    let n = es.len();
    let mut i: usize = 0;
    proof {
        crate::value::lemma_vof_entries_len(es@);
    }
    while i < n
        invariant
            0 <= i <= n,
            n == es@.len(),
            vof_entries(es@).len() == n,
            json_fields(vof_entries(es@), typed, 0) =~= out@.skip(old(out)@.len() as int)
                + json_fields(vof_entries(es@), typed, i as int),
            out@.len() >= old(out)@.len(),
            out@.subrange(0, old(out)@.len() as int) =~= old(out)@,
        decreases n - i,
    {
        proof {
            lemma_vof_entries_index(es@, i as int);
        }
        let ghost pre = out@;
        push_json_str(out, es[i].0.as_slice());
        out.push(58);
        render_value(out, &es[i].1, typed);
        if i + 1 < n {
            out.push(44);
        }
        proof {
            let ent = vof_entries(es@)[i as int];
            assert(out@.subrange(0, old(out)@.len() as int) =~= old(out)@);
            if i + 1 < n {
                assert(json_fields(vof_entries(es@), typed, i as int) == json_str(ent.0)
                    + seq![58u8] + json_of(ent.1, typed) + seq![44u8] + json_fields(
                    vof_entries(es@),
                    typed,
                    i + 1,
                ));
                assert(out@.skip(old(out)@.len() as int) =~= pre.skip(old(out)@.len() as int)
                    + json_str(ent.0) + seq![58u8] + json_of(ent.1, typed) + seq![44u8]);
            } else {
                assert(json_fields(vof_entries(es@), typed, i as int) == json_str(ent.0)
                    + seq![58u8] + json_of(ent.1, typed));
                assert(out@.skip(old(out)@.len() as int) =~= pre.skip(old(out)@.len() as int)
                    + json_str(ent.0) + seq![58u8] + json_of(ent.1, typed));
            }
            assert(json_fields(vof_entries(es@), typed, 0) =~= out@.skip(old(out)@.len() as int)
                + json_fields(vof_entries(es@), typed, i + 1));
        }
        i += 1;
    }
    proof {
        assert(json_fields(vof_entries(es@), typed, n as int) =~= Seq::<u8>::empty());
        assert(out@ =~= out@.subrange(0, old(out)@.len() as int) + out@.skip(
            old(out)@.len() as int,
        ));
        assert(final(out)@ =~= old(out)@ + json_fields(vof_entries(es@), typed, 0));
    }
}

/// Append the comma-joined `["key",value]` pairs of a typed object.
fn render_pairs(out: &mut Vec<u8>, es: &Vec<(Vec<u8>, Value)>, typed: bool)
    ensures
        final(out)@ == old(out)@ + json_pairs(vof_entries(es@), typed, 0),
    decreases es, 1int,
{
    let n = es.len();
    let mut i: usize = 0;
    proof {
        crate::value::lemma_vof_entries_len(es@);
    }
    while i < n
        invariant
            0 <= i <= n,
            n == es@.len(),
            vof_entries(es@).len() == n,
            json_pairs(vof_entries(es@), typed, 0) =~= out@.skip(old(out)@.len() as int)
                + json_pairs(vof_entries(es@), typed, i as int),
            out@.len() >= old(out)@.len(),
            out@.subrange(0, old(out)@.len() as int) =~= old(out)@,
        decreases n - i,
    {
        proof {
            lemma_vof_entries_index(es@, i as int);
        }
        let ghost pre = out@;
        out.push(91);
        push_json_str(out, es[i].0.as_slice());
        out.push(44);
        render_value(out, &es[i].1, typed);
        out.push(93);
        if i + 1 < n {
            out.push(44);
        }
        proof {
            let ent = vof_entries(es@)[i as int];
            let item = seq![91u8] + json_str(ent.0) + seq![44u8] + json_of(ent.1, typed)
                + seq![93u8];
            assert(out@.subrange(0, old(out)@.len() as int) =~= old(out)@);
            if i + 1 < n {
                assert(json_pairs(vof_entries(es@), typed, i as int) == item + seq![44u8]
                    + json_pairs(vof_entries(es@), typed, i + 1));
                assert(out@.skip(old(out)@.len() as int) =~= pre.skip(old(out)@.len() as int)
                    + item + seq![44u8]);
            } else {
                assert(json_pairs(vof_entries(es@), typed, i as int) == item);
                assert(out@.skip(old(out)@.len() as int) =~= pre.skip(old(out)@.len() as int)
                    + item);
            }
            assert(json_pairs(vof_entries(es@), typed, 0) =~= out@.skip(old(out)@.len() as int)
                + json_pairs(vof_entries(es@), typed, i + 1));
        }
        i += 1;
    }
    proof {
        assert(json_pairs(vof_entries(es@), typed, n as int) =~= Seq::<u8>::empty());
        assert(out@ =~= out@.subrange(0, old(out)@.len() as int) + out@.skip(
            old(out)@.len() as int,
        ));
        assert(final(out)@ =~= old(out)@ + json_pairs(vof_entries(es@), typed, 0));
    }
}

/// The JSON text of a materialized value.
pub fn render_json(v: &Value, typed: bool) -> (r: Vec<u8>)
    ensures
        r@ == json_of(vof(*v), typed),
{
    let mut out: Vec<u8> = Vec::new();
    render_value(&mut out, v, typed);
    out
}

/// The JSON text of a whole stream under a disambiguation mode.
pub open spec fn spec_json(toks: Seq<Token>, enc: TextEncoding, nar: Narrowing,
    mode: DisambiguateMode) -> Seq<u8> {
    json_of(spec_root(toks, enc, nar, mode is Group), mode is Typed)
}

/// Render a whole stream as compact JSON text under a disambiguation
/// mode.
pub fn to_json(toks: &Vec<Token>, enc: TextEncoding, nar: Narrowing, mode: DisambiguateMode)
    -> (r: Vec<u8>)
    requires
        wf(toks@),
    ensures
        r@ == spec_json(toks@, enc, nar, mode),
{
    let grouped = matches!(mode, DisambiguateMode::Group);
    let typed = matches!(mode, DisambiguateMode::Typed);
    let tree = materialize(toks, enc, nar, grouped);
    render_json(&tree, typed)
}

} // verus!
