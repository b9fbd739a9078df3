//! The incremental writer: a stateful, append-only emitter of the
//! grammar's textual form.
//!
//! Keys and values alternate; between a key and its value an `=` is
//! injected, array elements are separated by spaces or newlines, and
//! container contents are indented two spaces per depth. The writer
//! trusts the caller to close every opened container in reverse order
//! of opening; closing with nothing open is the one reported error.
//! Every method's contract states the exact bytes appended and the
//! exact state reached.

use vstd::prelude::*;
use crate::date::{GameDate, spec_date_bytes, push_date};
use crate::scalar::{dec_bytes, dec_bytes_signed, push_i64_dec, push_u64_dec};
use crate::token::Op;

verus! {

/// Whether the enclosing container is written as an object or an
/// array.
#[derive(Debug, Clone, Copy, PartialEq, Eq, Structural)]
pub enum DepthMode {
    Object,
    Array,
}

/// What the next write stands for.
#[derive(Debug, Clone, Copy, PartialEq, Eq, Structural)]
pub enum WriteState {
    /// The next write is a key on a fresh line.
    Key,
    /// The next write is an object value.
    ObjectValue,
    /// The next write is a value whose `=` is still owed.
    KeyValueSeparator,
    /// The next write is a further array element.
    ArrayValue,
    /// The next write is the first array element.
    ArrayValueFirst,
    /// The next write is the first key of a fresh object.
    FirstKey,
    /// A container just opened; array or object is still unknown.
    FirstUnknown,
    /// One value into a container of still unknown kind.
    SecondUnknown,
}

/// Mixed-content emission: once started, keys and operators follow
/// array elements without separator injection.
#[derive(Debug, Clone, Copy, PartialEq, Eq, Structural)]
pub enum MixedState {
    Disabled,
    Started,
    Keyed,
}

/// The state a write leaves the writer in.
pub open spec fn next_state(s: WriteState) -> WriteState {
    match s {
        WriteState::Key => WriteState::KeyValueSeparator,
        WriteState::ObjectValue => WriteState::Key,
        WriteState::KeyValueSeparator => WriteState::Key,
        WriteState::ArrayValue => WriteState::ArrayValue,
        WriteState::ArrayValueFirst => WriteState::ArrayValue,
        WriteState::FirstKey => WriteState::KeyValueSeparator,
        WriteState::FirstUnknown => WriteState::SecondUnknown,
        WriteState::SecondUnknown => WriteState::ArrayValue,
    }
}

/// No value or key has been written into the open container yet.
pub open spec fn no_data_yet(s: WriteState) -> bool {
    s is ArrayValueFirst || s is FirstKey || s is FirstUnknown
}

/// The indentation for a nesting depth: two spaces per level.
pub open spec fn spec_indent(depth: nat) -> Seq<u8> {
    Seq::new(depth * 2, |i: int| 32u8)
}

/// The separator bytes a write emits before its payload.
pub open spec fn pre_bytes(s: WriteState, needs_nl: bool, mixed: MixedState, depth: nat) -> Seq<
    u8,
> {
    let nl: Seq<u8> = if needs_nl {
        seq![10u8]
    } else {
        Seq::empty()
    };
    match s {
        WriteState::ArrayValue | WriteState::SecondUnknown => if needs_nl {
            nl + spec_indent(depth)
        } else if mixed is Keyed {
            nl
        } else {
            nl + seq![32u8]
        },
        WriteState::Key => nl + spec_indent(depth),
        WriteState::KeyValueSeparator => nl + seq![61u8],
        WriteState::ObjectValue => nl,
        _ => nl + spec_indent(depth),
    }
}

/// The mixed-content state a write's separator leaves behind.
pub open spec fn pre_mixed(s: WriteState, needs_nl: bool, mixed: MixedState) -> MixedState {
    match s {
        WriteState::ArrayValue | WriteState::SecondUnknown => if !needs_nl && mixed is Keyed {
            MixedState::Started
        } else {
            mixed
        },
        _ => mixed,
    }
}

/// Quoted text with a single trailing newline dropped.
pub open spec fn trim_nl(s: Seq<u8>) -> Seq<u8> {
    if s.len() > 0 && s.last() == 10 {
        s.drop_last()
    } else {
        s
    }
}

/// Quoted text with every quote and backslash escaped by a backslash.
pub open spec fn esc_bytes(s: Seq<u8>) -> Seq<u8>
    decreases s.len(),
{
    if s.len() == 0 {
        Seq::empty()
    } else {
        esc_bytes(s.drop_last()) + (if s.last() == 34 || s.last() == 92 {
            seq![92u8, s.last()]
        } else {
            seq![s.last()]
        })
    }
}

/// Closing a container with none open is the writer's one error.
#[derive(Debug, Clone, Copy, PartialEq, Eq, Structural)]
pub struct UnopenedEnd;

/// The incremental writer.
#[derive(Debug)]
pub struct Writer {
    /// The bytes emitted so far.
    pub out: Vec<u8>,
    /// The kind of the open container.
    pub mode: DepthMode,
    /// The kinds of the enclosing containers.
    pub depth: Vec<DepthMode>,
    /// What the next write stands for.
    pub state: WriteState,
    /// A newline is owed before the next write.
    pub needs_nl: bool,
    /// Mixed-content emission state.
    pub mixed: MixedState,
}

/// A scalar-writing method appends the separator and the payload and
/// steps the state machine once.
pub open spec fn scalar_write_ok(old_w: Writer, new_w: Writer, payload: Seq<u8>) -> bool {
    &&& new_w.out@ == old_w.out@ + pre_bytes(old_w.state, old_w.needs_nl, old_w.mixed,
        old_w.depth@.len()) + payload
    &&& new_w.mode == old_w.mode
    &&& new_w.depth == old_w.depth
    &&& new_w.state == next_state(old_w.state)
    &&& new_w.needs_nl == (next_state(old_w.state) is Key)
    &&& new_w.mixed == pre_mixed(old_w.state, old_w.needs_nl, old_w.mixed)
}

impl Writer {
    /// A fresh writer: empty output, expecting a key at the root.
    pub fn new() -> (r: Writer)
        ensures
            r.out@ == Seq::<u8>::empty(),
            r.mode == DepthMode::Object,
            r.depth@ == Seq::<DepthMode>::empty(),
            r.state == WriteState::Key,
            r.needs_nl == false,
            r.mixed == MixedState::Disabled,
    {
        Writer {
            out: Vec::new(),
            mode: DepthMode::Object,
            depth: Vec::new(),
            state: WriteState::Key,
            needs_nl: false,
            mixed: MixedState::Disabled,
        }
    }

    /// Extract the emitted bytes, consuming the writer.
    pub fn inner(self) -> (r: Vec<u8>)
        ensures
            r == self.out,
    {
        self.out
    }

    /// Append the owed newline and the indentation or separator for
    /// the coming write.
    fn write_preamble(&mut self)
        ensures
            final(self).out@ == old(self).out@ + pre_bytes(
                old(self).state,
                old(self).needs_nl,
                old(self).mixed,
                old(self).depth@.len(),
            ),
            final(self).mode == old(self).mode,
            final(self).depth == old(self).depth,
            final(self).state == old(self).state,
            final(self).needs_nl == false,
            final(self).mixed == pre_mixed(old(self).state, old(self).needs_nl, old(self).mixed),
    {
        let just_wrote = self.needs_nl;
        if self.needs_nl {
            self.out.push(10);
            self.needs_nl = false;
        }
        match self.state {
            WriteState::ArrayValue | WriteState::SecondUnknown => {
                if just_wrote {
                    self.write_indent();
                } else if matches!(self.mixed, MixedState::Keyed) {
                    self.mixed = MixedState::Started;
                } else {
                    self.out.push(32);
                }
            },
            WriteState::Key => {
                self.write_indent();
            },
            WriteState::KeyValueSeparator => {
                self.out.push(61);
            },
            WriteState::ObjectValue => {},
            _ => {
                self.write_indent();
            },
        }
        proof {
            assert(final(self).out@ =~= old(self).out@ + pre_bytes(
                old(self).state,
                old(self).needs_nl,
                old(self).mixed,
                old(self).depth@.len(),
            ));
        }
    }

    /// Append two spaces per nesting level.
    fn write_indent(&mut self)
        ensures
            final(self).out@ == old(self).out@ + spec_indent(old(self).depth@.len()),
            final(self).mode == old(self).mode,
            final(self).depth == old(self).depth,
            final(self).state == old(self).state,
            final(self).needs_nl == old(self).needs_nl,
            final(self).mixed == old(self).mixed,
    {
        let n = self.depth.len();
        let mut k: usize = 0;
        while k < n
            invariant
                k <= n,
                n == self.depth@.len(),
                self.mode == old(self).mode,
                self.depth == old(self).depth,
                self.state == old(self).state,
                self.needs_nl == old(self).needs_nl,
                self.mixed == old(self).mixed,
                self.out@ =~= old(self).out@ + Seq::new((k * 2) as nat, |i: int| 32u8),
            decreases n - k,
        {
            self.out.push(32);
            self.out.push(32);
            proof {
                assert(self.out@ =~= old(self).out@ + Seq::new(((k + 1) * 2) as nat,
                    |i: int| 32u8));
            }
            k += 1;
        }
        proof {
            assert(self.out@ =~= old(self).out@ + spec_indent(old(self).depth@.len()));
        }
    }

    /// Step the state machine past a written scalar.
    fn write_epilogue(&mut self)
        ensures
            final(self).out == old(self).out,
            final(self).mode == old(self).mode,
            final(self).depth == old(self).depth,
            final(self).state == next_state(old(self).state),
            final(self).needs_nl == (next_state(old(self).state) is Key),
            final(self).mixed == old(self).mixed,
    {
        self.state = match self.state {
            WriteState::Key => WriteState::KeyValueSeparator,
            WriteState::ObjectValue => WriteState::Key,
            WriteState::KeyValueSeparator => WriteState::Key,
            WriteState::ArrayValue => WriteState::ArrayValue,
            WriteState::ArrayValueFirst => WriteState::ArrayValue,
            WriteState::FirstKey => WriteState::KeyValueSeparator,
            WriteState::FirstUnknown => WriteState::SecondUnknown,
            WriteState::SecondUnknown => WriteState::ArrayValue,
        };
        self.needs_nl = matches!(self.state, WriteState::Key);
    }

    /// Write raw bytes as an unquoted scalar.
    pub fn write_unquoted(&mut self, data: &[u8])
        ensures
            scalar_write_ok(*old(self), *final(self), data@),
    {
        self.write_preamble();
        let ghost mid = self.out@;
        let mut k: usize = 0;
        while k < data.len()
            invariant
                k <= data@.len(),
                self.out@ =~= mid + data@.subrange(0, k as int),
                self.mode == old(self).mode,
                self.depth == old(self).depth,
                self.state == old(self).state,
                self.needs_nl == false,
                self.mixed == pre_mixed(old(self).state, old(self).needs_nl, old(self).mixed),
                mid == old(self).out@ + pre_bytes(
                    old(self).state,
                    old(self).needs_nl,
                    old(self).mixed,
                    old(self).depth@.len(),
                ),
            decreases data@.len() - k,
        {
            self.out.push(data[k]);
            proof {
                assert(self.out@ =~= mid + data@.subrange(0, k + 1));
            }
            k += 1;
        }
        proof {
            assert(data@.subrange(0, data@.len() as int) =~= data@);
        }
        self.write_epilogue();
        proof {
            assert(final(self).out@ =~= old(self).out@ + pre_bytes(
                old(self).state,
                old(self).needs_nl,
                old(self).mixed,
                old(self).depth@.len(),
            ) + data@);
        }
    }

    /// Write bytes as a quoted scalar: wrapped in quotes, one trailing
    /// newline dropped, quotes and backslashes escaped.
    pub fn write_quoted(&mut self, data: &[u8])
        ensures
            scalar_write_ok(
                *old(self),
                *final(self),
                seq![34u8] + esc_bytes(trim_nl(data@)) + seq![34u8],
            ),
    {
        self.write_preamble();
        let ghost mid = self.out@;
        self.out.push(34);
        let n = if data.len() > 0 && data[data.len() - 1] == 10 {
            data.len() - 1
        } else {
            data.len()
        };
        proof {
            assert(trim_nl(data@) =~= data@.subrange(0, n as int));
        }
        let mut k: usize = 0;
        while k < n
            invariant
                k <= n <= data@.len(),
                trim_nl(data@) == data@.subrange(0, n as int),
                self.out@ =~= mid + seq![34u8] + esc_bytes(data@.subrange(0, k as int)),
                self.mode == old(self).mode,
                self.depth == old(self).depth,
                self.state == old(self).state,
                self.needs_nl == false,
                self.mixed == pre_mixed(old(self).state, old(self).needs_nl, old(self).mixed),
                mid == old(self).out@ + pre_bytes(
                    old(self).state,
                    old(self).needs_nl,
                    old(self).mixed,
                    old(self).depth@.len(),
                ),
            decreases n - k,
        {
            let b = data[k];
            if b == 34 || b == 92 {
                self.out.push(92);
            }
            self.out.push(b);
            proof {
                let pre = data@.subrange(0, k as int);
                assert(data@.subrange(0, k + 1) =~= pre.push(b));
                assert(pre.push(b).drop_last() =~= pre);
                assert(self.out@ =~= mid + seq![34u8] + esc_bytes(data@.subrange(0, k + 1)));
            }
            k += 1;
        }
        self.out.push(34);
        self.write_epilogue();
        proof {
            assert(final(self).out@ =~= old(self).out@ + pre_bytes(
                old(self).state,
                old(self).needs_nl,
                old(self).mixed,
                old(self).depth@.len(),
            ) + (seq![34u8] + esc_bytes(trim_nl(data@)) + seq![34u8]));
        }
    }

    /// Write a boolean as `yes` or `no`.
    pub fn write_bool(&mut self, data: bool)
        ensures
            scalar_write_ok(
                *old(self),
                *final(self),
                if data {
                    seq![121u8, 101u8, 115u8]
                } else {
                    seq![110u8, 111u8]
                },
            ),
    {
        if data {
            let v: Vec<u8> = vec![121, 101, 115];
            self.write_unquoted(v.as_slice());
        } else {
            let v: Vec<u8> = vec![110, 111];
            self.write_unquoted(v.as_slice());
        }
    }

    /// Write a signed integer in decimal.
    pub fn write_integer(&mut self, data: i32)
        ensures
            scalar_write_ok(*old(self), *final(self), dec_bytes_signed(data as int)),
    {
        let mut buf: Vec<u8> = Vec::new();
        push_i64_dec(&mut buf, data as i64);
        self.write_unquoted(buf.as_slice());
    }

    /// Write an unsigned integer in decimal.
    pub fn write_u64(&mut self, data: u64)
        ensures
            scalar_write_ok(*old(self), *final(self), dec_bytes(data as int)),
    {
        let mut buf: Vec<u8> = Vec::new();
        push_u64_dec(&mut buf, data);
        self.write_unquoted(buf.as_slice());
    }

    /// Write a date in the grammar's dotted form, converting the
    /// stored 0-based month and hour back to their 1-based literals.
    pub fn write_date(&mut self, data: &GameDate)
        ensures
            scalar_write_ok(*old(self), *final(self), spec_date_bytes(*data)),
    {
        let mut buf: Vec<u8> = Vec::new();
        push_date(&mut buf, data);
        self.write_unquoted(buf.as_slice());
    }

    /// Write an operator. Outside mixed content a non-`=` operator is
    /// spaced, the write switches the container to an object, and the
    /// following write is its value; inside mixed content the bare
    /// symbol is emitted.
    pub fn write_operator(&mut self, data: Op)
        ensures
            old(self).mixed is Disabled ==> {
                &&& final(self).out@ == old(self).out@ + (if data is Equal {
                    seq![61u8]
                } else {
                    seq![32u8] + data.spec_symbol() + seq![32u8]
                })
                &&& final(self).mode == DepthMode::Object
                &&& final(self).state == WriteState::ObjectValue
                &&& final(self).mixed == old(self).mixed
            },
            !(old(self).mixed is Disabled) ==> {
                &&& final(self).out@ == old(self).out@ + data.spec_symbol()
                &&& final(self).mode == old(self).mode
                &&& final(self).state == old(self).state
                &&& final(self).mixed == MixedState::Keyed
            },
            final(self).depth == old(self).depth,
            final(self).needs_nl == false,
    {
        self.needs_nl = false;
        let sym = op_symbol(data);
        if matches!(self.mixed, MixedState::Disabled) {
            if matches!(data, Op::Equal) {
                self.out.push(61);
            } else {
                let ghost base = self.out@;
                self.out.push(32);
                self.push_all(sym.as_slice());
                self.out.push(32);
                proof {
                    assert(self.out@ =~= base + (seq![32u8] + data.spec_symbol() + seq![32u8]));
                }
            }
            self.mode = DepthMode::Object;
            self.state = WriteState::ObjectValue;
        } else {
            self.push_all(sym.as_slice());
            self.mixed = MixedState::Keyed;
        }
    }

    /// Write a header: the tag bytes and a space; the tagged value
    /// follows as an object value.
    pub fn write_header(&mut self, data: &[u8])
        ensures
            final(self).out@ == old(self).out@ + pre_bytes(
                old(self).state,
                old(self).needs_nl,
                old(self).mixed,
                old(self).depth@.len(),
            ) + data@ + seq![32u8],
            final(self).mode == old(self).mode,
            final(self).depth == old(self).depth,
            final(self).state == WriteState::ObjectValue,
            final(self).needs_nl == false,
            final(self).mixed == pre_mixed(old(self).state, old(self).needs_nl, old(self).mixed),
    {
        self.write_preamble();
        let ghost mid = self.out@;
        self.push_all(data);
        self.out.push(32);
        self.state = WriteState::ObjectValue;
        proof {
            assert(final(self).out@ =~= old(self).out@ + pre_bytes(
                old(self).state,
                old(self).needs_nl,
                old(self).mixed,
                old(self).depth@.len(),
            ) + data@ + seq![32u8]);
        }
    }

    /// Open a container of still unknown kind.
    pub fn write_start(&mut self)
        ensures
            final(self).out@ == old(self).out@ + pre_bytes(
                old(self).state,
                old(self).needs_nl,
                old(self).mixed,
                old(self).depth@.len(),
            ) + seq![123u8],
            final(self).mode == DepthMode::Array,
            final(self).depth@ == old(self).depth@.push(old(self).mode),
            final(self).state == WriteState::FirstUnknown,
            final(self).needs_nl == true,
            final(self).mixed == pre_mixed(old(self).state, old(self).needs_nl, old(self).mixed),
    {
        self.write_preamble();
        self.out.push(123);
        let m = self.mode;
        self.depth.push(m);
        self.needs_nl = true;
        self.mode = DepthMode::Array;
        self.state = WriteState::FirstUnknown;
    }

    /// Open an object.
    pub fn write_object_start(&mut self)
        ensures
            final(self).out@ == old(self).out@ + pre_bytes(
                old(self).state,
                old(self).needs_nl,
                old(self).mixed,
                old(self).depth@.len(),
            ) + seq![123u8],
            final(self).mode == DepthMode::Object,
            final(self).depth@ == old(self).depth@.push(old(self).mode),
            final(self).state == WriteState::FirstKey,
            final(self).needs_nl == true,
            final(self).mixed == pre_mixed(old(self).state, old(self).needs_nl, old(self).mixed),
    {
        self.write_start();
        self.mode = DepthMode::Object;
        self.state = WriteState::FirstKey;
    }

    /// Open an array.
    pub fn write_array_start(&mut self)
        ensures
            final(self).out@ == old(self).out@ + pre_bytes(
                old(self).state,
                old(self).needs_nl,
                old(self).mixed,
                old(self).depth@.len(),
            ) + seq![123u8],
            final(self).mode == DepthMode::Array,
            final(self).depth@ == old(self).depth@.push(old(self).mode),
            final(self).state == WriteState::ArrayValueFirst,
            final(self).needs_nl == true,
            final(self).mixed == pre_mixed(old(self).state, old(self).needs_nl, old(self).mixed),
    {
        self.write_start();
        self.mode = DepthMode::Array;
        self.state = WriteState::ArrayValueFirst;
    }

    /// Switch the open container to mixed content emission.
    pub fn start_mixed_mode(&mut self)
        ensures
            final(self).out == old(self).out,
            final(self).mode == DepthMode::Array,
            final(self).depth == old(self).depth,
            final(self).state == old(self).state,
            final(self).needs_nl == old(self).needs_nl,
            final(self).mixed == MixedState::Started,
    {
        self.mode = DepthMode::Array;
        self.mixed = MixedState::Started;
    }

    /// Close the innermost open container. Fails, changing nothing,
    /// exactly when no container is open.
    pub fn write_end(&mut self) -> (r: Result<(), UnopenedEnd>)
        ensures
            old(self).depth@.len() == 0 ==> {
                &&& r is Err
                &&& final(self).out == old(self).out
                &&& final(self).mode == old(self).mode
                &&& final(self).depth@ == old(self).depth@
                &&& final(self).state == old(self).state
                &&& final(self).needs_nl == old(self).needs_nl
                &&& final(self).mixed == old(self).mixed
            },
            old(self).depth@.len() > 0 ==> {
                &&& r is Ok
                &&& final(self).out@ == old(self).out@ + (if no_data_yet(old(self).state) {
                    seq![32u8]
                } else {
                    seq![10u8] + spec_indent((old(self).depth@.len() - 1) as nat)
                }) + seq![125u8]
                &&& final(self).mode == old(self).depth@.last()
                &&& final(self).depth@ == old(self).depth@.drop_last()
                &&& final(self).state == (if old(self).depth@.last() is Object {
                    WriteState::Key
                } else {
                    WriteState::ArrayValue
                })
                &&& final(self).needs_nl == true
                &&& final(self).mixed == MixedState::Disabled
            },
    {
        let old_state = self.state;
        match self.depth.pop() {
            Some(m) => {
                self.mode = m;
                self.state = if matches!(m, DepthMode::Object) {
                    WriteState::Key
                } else {
                    WriteState::ArrayValue
                };
                let nd = if matches!(
                    old_state,
                    WriteState::ArrayValueFirst | WriteState::FirstKey | WriteState::FirstUnknown,
                ) {
                    true
                } else {
                    false
                };
                if nd {
                    self.out.push(32);
                } else {
                    self.out.push(10);
                    self.write_indent();
                }
                self.out.push(125);
                self.needs_nl = true;
                self.mixed = MixedState::Disabled;
                proof {
                    assert(final(self).out@ =~= old(self).out@ + (if no_data_yet(old(self).state) {
                        seq![32u8]
                    } else {
                        seq![10u8] + spec_indent((old(self).depth@.len() - 1) as nat)
                    }) + seq![125u8]);
                }
                Ok(())
            },
            None => Err(UnopenedEnd),
        }
    }

    /// Append bytes verbatim, touching no other state.
    fn push_all(&mut self, data: &[u8])
        ensures
            final(self).out@ == old(self).out@ + data@,
            final(self).mode == old(self).mode,
            final(self).depth == old(self).depth,
            final(self).state == old(self).state,
            final(self).needs_nl == old(self).needs_nl,
            final(self).mixed == old(self).mixed,
    {
        let mut k: usize = 0;
        while k < data.len()
            invariant
                k <= data@.len(),
                self.out@ =~= old(self).out@ + data@.subrange(0, k as int),
                self.mode == old(self).mode,
                self.depth == old(self).depth,
                self.state == old(self).state,
                self.needs_nl == old(self).needs_nl,
                self.mixed == old(self).mixed,
            decreases data@.len() - k,
        {
            self.out.push(data[k]);
            proof {
                assert(self.out@ =~= old(self).out@ + data@.subrange(0, k + 1));
            }
            k += 1;
        }
        proof {
            assert(data@.subrange(0, data@.len() as int) =~= data@);
        }
    }
}

/// An operator's grammar spelling as bytes.
fn op_symbol(o: Op) -> (r: Vec<u8>)
    ensures
        r@ == o.spec_symbol(),
{
    proof {
        reveal_strlit("<");
        reveal_strlit("<=");
        reveal_strlit(">");
        reveal_strlit(">=");
        reveal_strlit("!=");
        reveal_strlit("==");
        reveal_strlit("=");
        reveal_strlit("?=");
    }
    let r: Vec<u8> = match o {
        Op::LessThan => vec![60],
        Op::LessThanEqual => vec![60, 61],
        Op::GreaterThan => vec![62],
        Op::GreaterThanEqual => vec![62, 61],
        Op::NotEqual => vec![33, 61],
        Op::Exact => vec![61, 61],
        Op::Equal => vec![61],
        Op::Exists => vec![63, 61],
    };
    proof {
        assert(r@ =~= o.spec_symbol());
    }
    r
}

} // verus!
