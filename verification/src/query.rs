//! The path query resolver: navigate the token stream segment by
//! segment without materializing the whole tree.
//!
//! A path is slash-separated; the part before the first slash is
//! discarded, so queries normally start with a slash. At each level
//! the resolver scans the container's fields in order. With segments
//! left it steps into the first field whose decoded key equals the
//! current segment, failing when that field's value is not an object.
//! At the last segment it collects every matching field's value: none
//! is the undefined sentinel, one is the value itself, several are an
//! ordered array.

use vstd::prelude::*;
use crate::token::{Token, wf, wf_span};
use crate::scalar::{TextEncoding, Narrowing, decode_text};
use crate::value::{V, Value, bytes_eq, vof, vof_list};
use crate::materialize::{EntrySpec, collect_fields, field_ok, spec_entries, build_entry, key_raw,
    lemma_vof_list_one, lemma_vof_list_push, value_wf};
use crate::scalar::decode_of;

verus! {

/// The index of the first slash at or after `i`, or the end.
pub open spec fn find_sep(s: Seq<u8>, i: int) -> int
    decreases s.len() - i when 0 <= i <= s.len()
{
    if i >= s.len() {
        s.len() as int
    } else if s[i] == 47 {
        i
    } else {
        find_sep(s, i + 1)
    }
}

pub proof fn lemma_find_sep_bounds(s: Seq<u8>, i: int)
    requires
        0 <= i <= s.len(),
    ensures
        i <= find_sep(s, i) <= s.len(),
    decreases s.len() - i,
{
    if i < s.len() && s[i] != 47 {
        lemma_find_sep_bounds(s, i + 1);
    }
}

/// The values of every field from `j` on whose decoded key is `seg`,
/// in order.
pub open spec fn match_vals(es: Seq<EntrySpec>, seg: Seq<u8>, j: int) -> Seq<V>
    decreases es.len() - j when j >= 0
{
    if j >= es.len() {
        Seq::empty()
    } else if es[j].dec == seg {
        seq![es[j].val] + match_vals(es, seg, j + 1)
    } else {
        match_vals(es, seg, j + 1)
    }
}

/// The index of the first field from `j` on whose decoded key is
/// `seg`, or -1.
pub open spec fn first_match(es: Seq<EntrySpec>, seg: Seq<u8>, j: int) -> int
    decreases es.len() - j when j >= 0
{
    if j >= es.len() {
        -1
    } else if es[j].dec == seg {
        j
    } else {
        first_match(es, seg, j + 1)
    }
}

/// The result of resolving the path from byte `pos` against the
/// container span `[start, end)`. The current segment runs from `pos`
/// to the next slash; it is the last one when no slash follows.
pub open spec fn spec_query_in(toks: Seq<Token>, start: int, end: int, path: Seq<u8>, pos: int,
    enc: TextEncoding, nar: Narrowing) -> Option<V>
    decreases path.len() - pos when 0 <= pos <= path.len() via spec_query_in_dec
{
    let es = spec_entries(toks, start, end, enc, nar, true);
    let sep = find_sep(path, pos);
    let seg = path.subrange(pos, sep);
    if sep >= path.len() {
        // last segment: collect every match
        let vs = match_vals(es, seg, 0);
        if vs.len() == 0 {
            None
        } else if vs.len() == 1 {
            Some(vs[0])
        } else {
            Some(V::Arr(vs))
        }
    } else {
        // step into the first match
        let m = first_match(es, seg, 0);
        if m == -1 {
            None
        } else {
            let vi = es[m].vi;
            if 0 <= vi < toks.len() && toks[vi] is Object {
                let e = toks[vi]->Object_0;
                if vi < e <= toks.len() {
                    spec_query_in(toks, vi + 1, e as int, path, sep + 1, enc, nar)
                } else {
                    None
                }
            } else {
                None
            }
        }
    }
}

#[via_fn]
proof fn spec_query_in_dec(toks: Seq<Token>, start: int, end: int, path: Seq<u8>, pos: int,
    enc: TextEncoding, nar: Narrowing) {
    lemma_find_sep_bounds(path, pos);
}

/// The result of a whole path query: the part before the first slash
/// is dropped, and a path without any slash resolves to nothing.
pub open spec fn spec_query(toks: Seq<Token>, path: Seq<u8>, enc: TextEncoding,
    nar: Narrowing) -> Option<V> {
    let first = find_sep(path, 0);
    if first >= path.len() {
        None
    } else {
        spec_query_in(toks, 0, toks.len() as int, path, first + 1, enc, nar)
    }
}

/// Find the next slash at or after `pos`.
fn next_sep(path: &[u8], pos: usize) -> (r: usize)
    requires
        pos <= path@.len(),
    ensures
        r == find_sep(path@, pos as int),
        pos <= r <= path@.len(),
    decreases path@.len() - pos,
{
    if pos >= path.len() {
        path.len()
    } else if path[pos] == 47 {
        pos
    } else {
        next_sep(path, pos + 1)
    }
}

/// Whether decoded key bytes equal the path segment `[pos, sep)`.
fn seg_eq(dec: &[u8], path: &[u8], pos: usize, sep: usize) -> (r: bool)
    requires
        pos <= sep <= path@.len(),
    ensures
        r == (dec@ =~= path@.subrange(pos as int, sep as int)),
{
    if dec.len() != sep - pos {
        proof {
            assert(path@.subrange(pos as int, sep as int).len() == sep - pos);
        }
        return false;
    }
    let mut i: usize = 0;
    while i < dec.len()
        invariant
            0 <= i <= dec@.len(),
            dec@.len() == sep - pos,
            pos <= sep <= path@.len(),
            forall|j: int| 0 <= j < i ==> dec@[j] == path@[pos + j],
        decreases dec@.len() - i,
    {
        if dec[i] != path[pos + i] {
            proof {
                assert(path@.subrange(pos as int, sep as int)[i as int] == path@[pos + i]);
            }
            return false;
        }
        i += 1;
    }
    proof {
        assert(dec@ =~= path@.subrange(pos as int, sep as int));
    }
    true
}

/// Resolve the path from byte `pos` against the span `[start, end)`.
fn query_in(toks: &Vec<Token>, start: usize, end: usize, path: &[u8], pos: usize,
    enc: TextEncoding, nar: Narrowing) -> (r: Option<Value>)
    requires
        start <= end <= toks@.len(),
        start < end ==> wf_span(toks@, start as int, end as int),
        end == toks@.len() || toks@[end as int] is End,
        pos <= path@.len(),
    ensures
        match r {
            Some(v) => spec_query_in(toks@, start as int, end as int, path@, pos as int, enc, nar)
                == Some(vof(v)),
            None => spec_query_in(toks@, start as int, end as int, path@, pos as int, enc, nar)
                is None,
        },
    decreases path@.len() - pos,
{
    let ghost es = spec_entries(toks@, start as int, end as int, enc, nar, true);
    let fs = collect_fields(toks, start, end, enc, nar, true);
    let fields = fs.0;
    let n = fields.len();
    let sep = next_sep(path, pos);
    if sep >= path.len() {
        // last segment: collect every matching field's value
        let mut vs: Vec<Value> = Vec::new();
        let mut k: usize = 0;
        while k < n
            invariant
                0 <= k <= n,
                n == es.len(),
                n == fields@.len(),
                pos <= sep <= path@.len(),
                sep == find_sep(path@, pos as int),
                forall|m: int|
                    0 <= m < n ==> field_ok(toks@, #[trigger] fields@[m], es[m], enc, nar, true),
                vof_list(vs@) + match_vals(es, path@.subrange(pos as int, sep as int), k as int)
                    =~= match_vals(es, path@.subrange(pos as int, sep as int), 0),
            decreases n - k,
        {
            let raw = key_raw(toks, fields[k].0);
            let dec = decode_text(enc, raw.as_slice());
            let ghost pre = vs@;
            let ghost seg = path@.subrange(pos as int, sep as int);
            proof {
                assert(dec@ == es[k as int].dec);
            }
            if seg_eq(dec.as_slice(), path, pos, sep) {
                let v = build_entry(toks, fields[k].1, fields[k].2, enc, nar, true);
                vs.push(v);
                proof {
                    lemma_vof_list_push(pre, v);
                    assert(vof(v) == es[k as int].val);
                    assert(es[k as int].dec == seg);
                    assert(match_vals(es, seg, k as int) == seq![es[k as int].val] + match_vals(
                        es,
                        seg,
                        k + 1,
                    ));
                    assert(vof_list(vs@) =~= vof_list(pre) + seq![es[k as int].val]);
                    assert((vof_list(pre) + seq![es[k as int].val]) + match_vals(es, seg, k + 1)
                        =~= vof_list(pre) + (seq![es[k as int].val] + match_vals(es, seg, k + 1)));
                }
            } else {
                proof {
                    assert(es[k as int].dec != seg);
                }
            }
            k += 1;
        }
        proof {
            crate::value::lemma_vof_list_len(vs@);
            assert(vof_list(vs@) =~= match_vals(es, path@.subrange(pos as int, sep as int), 0));
        }
        if vs.len() == 0 {
            None
        } else if vs.len() == 1 {
            let ghost old_vs = vs@;
            proof {
                lemma_vof_list_one(old_vs);
            }
            let mut vs = vs;
            match vs.pop() {
                Some(v) => {
                    proof {
                        assert(vof(v) == vof_list(old_vs)[0]);
                    }
                    Some(v)
                },
                None => None,
            }
        } else {
            Some(Value::Arr(vs))
        }
    } else {
        // step into the first field whose key matches
        let mut k: usize = 0;
        while k < n
            invariant
                0 <= k <= n,
                n == es.len(),
                n == fields@.len(),
                pos <= sep <= path@.len(),
                sep == find_sep(path@, pos as int),
                sep < path@.len(),
                path@.len() <= usize::MAX,
                es == spec_entries(toks@, start as int, end as int, enc, nar, true),
                pos <= path@.len(),
                start <= end <= toks@.len(),
                start < end ==> wf_span(toks@, start as int, end as int),
                end == toks@.len() || toks@[end as int] is End,
                forall|m: int|
                    0 <= m < n ==> field_ok(toks@, #[trigger] fields@[m], es[m], enc, nar, true),
                first_match(es, path@.subrange(pos as int, sep as int), 0) == first_match(
                    es,
                    path@.subrange(pos as int, sep as int),
                    k as int,
                ),
            decreases n - k,
        {
            let raw = key_raw(toks, fields[k].0);
            let dec = decode_text(enc, raw.as_slice());
            let ghost seg = path@.subrange(pos as int, sep as int);
            proof {
                assert(dec@ == es[k as int].dec);
            }
            if seg_eq(dec.as_slice(), path, pos, sep) {
                let vi = fields[k].2;
                proof {
                    assert(es[k as int].dec == seg);
                    assert(first_match(es, seg, k as int) == k as int);
                    assert(first_match(es, seg, 0) == k as int);
                    assert(es[k as int].vi == vi as int);
                    assert(value_wf(toks@, vi as int));
                }
                if vi < toks.len() {
                    match &toks[vi] {
                        Token::Object(e) => {
                            let e = *e;
                            if vi < e && e <= toks.len() {
                                return query_in(toks, vi + 1, e, path, sep + 1, enc, nar);
                            } else {
                                return None;
                            }
                        },
                        _ => {
                            return None;
                        },
                    }
                } else {
                    return None;
                }
            } else {
                proof {
                    assert(es[k as int].dec != seg);
                }
            }
            k += 1;
        }
        proof {
            assert(first_match(es, path@.subrange(pos as int, sep as int), n as int) == -1);
        }
        None
    }
}

/// Resolve a slash-separated path against a whole stream.
pub fn query(toks: &Vec<Token>, path: &[u8], enc: TextEncoding, nar: Narrowing) -> (r: Option<
    Value,
>)
    requires
        wf(toks@),
    ensures
        match r {
            Some(v) => spec_query(toks@, path@, enc, nar) == Some(vof(v)),
            None => spec_query(toks@, path@, enc, nar) is None,
        },
{
    let first = next_sep(path, 0);
    if first >= path.len() {
        None
    } else {
        query_in(toks, 0, toks.len(), path, first + 1, enc, nar)
    }
}

} // verus!
