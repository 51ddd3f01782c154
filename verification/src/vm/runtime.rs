//! The interpreter loop of the virtual machine, for the instructions on
//! integers, booleans, the stack, locals, jumps, `otherwise` handlers and
//! compound values.
//!
//! Values are 64-bit words: integers as they are, booleans as `0` and `1`.
//! A `WideArg` prefix widens the operand of the next instruction only: every
//! other instruction clears the gathered bytes.
//! Integer arithmetic wraps on overflow, as a release build of the loop
//! does; division and remainder by zero are runtime errors. Arrays, records
//! and maps live in the machine's heap (see [`crate::vm::heap`]); an index
//! outside an array and a key missing from a map are runtime errors. Every
//! other instruction (floats, strings, calls of host functions) is handed
//! back to the caller as [`Step::Outside`], after the instruction pointer
//! has moved past it; so is an integer power whose exponent is not a `u32`,
//! which the caller refuses as it sees fit.
//!
//! Code may loop forever, so the loops take a budget of steps (`fuel`) and
//! report `Step::Continue` when it runs out.
use crate::vm::heap::{
    find_key, lookup_first, make_map, pairs, signed_decimal, signed_text, sort_entries, words_of,
    Object, ObjectView,
};
use crate::vm::instruction_set::{comparison_text, Instruction};
use crate::vm::stack::Stack;
use vstd::arithmetic::div_mod::{
    lemma_div_is_ordered_by_denominator, lemma_div_pos_is_pos, lemma_fundamental_div_mod, lemma_mod_add_multiples_vanish, lemma_mod_multiples_basic,
    lemma_mod_pos_bound, lemma_mod_sub_multiples_vanish, lemma_mul_mod_noop, lemma_small_mod,
};
use vstd::arithmetic::power::{
    lemma_pow0, lemma_pow1, lemma_pow_adds, lemma_pow_mod_noop, lemma_pow_multiplies,
    lemma_square_is_pow2, pow,
};
use vstd::prelude::*;
use vstd::wrapping::i64_specs::signed_crop;

verus! {

/// Why a step failed.
#[derive(Debug, Clone, PartialEq, Eq)]
pub enum RuntimeError {
    /// Division or remainder by zero.
    DivisionByZero,
    /// The one integer division that overflows: the smallest integer by `-1`.
    IntegerOverflow,
    /// An array index, counted from the end when negative, that is not in
    /// the array; or a field index that the array does not reach.
    IndexOutOfBounds { index: i64, len: usize },
    /// A map has no entry with the key, shown as decimal text.
    KeyNotFound { key_display: String },
    /// The code does not fit the state: the instruction pointer, a jump,
    /// a constant or a local is out of range, the stack holds too few
    /// values or has no room for one more, or no `otherwise` handler is
    /// there to pop.
    Malformed,
}

/// Why a step failed, as values.
pub enum ErrorView {
    DivisionByZero,
    IntegerOverflow,
    IndexOutOfBounds { index: i64, len: usize },
    KeyNotFound { key_display: Seq<char> },
    Malformed,
}

impl View for RuntimeError {
    type V = ErrorView;

    open spec fn view(&self) -> ErrorView {
        match self {
            RuntimeError::DivisionByZero => ErrorView::DivisionByZero,
            RuntimeError::IntegerOverflow => ErrorView::IntegerOverflow,
            RuntimeError::IndexOutOfBounds { index, len } => ErrorView::IndexOutOfBounds {
                index: *index,
                len: *len,
            },
            RuntimeError::KeyNotFound { key_display } => ErrorView::KeyNotFound {
                key_display: key_display@,
            },
            RuntimeError::Malformed => ErrorView::Malformed,
        }
    }
}

/// A result with its error taken by its view.
pub open spec fn viewed<T>(r: Result<T, RuntimeError>) -> Result<T, ErrorView> {
    match r {
        Ok(x) => Ok(x),
        Err(e) => Err(e@),
    }
}

/// What a step did, when it did not fail.
#[derive(Debug, Clone, Copy, PartialEq, Eq, Structural)]
pub enum Step {
    /// It executed an instruction; the loop goes on.
    Continue,
    /// It met `Halt` or `Return`.
    Done,
    /// It moved past an instruction that the caller performs.
    Outside(Instruction),
}

/// The code the machine runs: its instructions and its constant pool.
pub struct Code {
    pub instructions: Vec<Instruction>,
    pub constants: Vec<i64>,
    /// The most values the code ever holds on the stack.
    pub max_stack_size: usize,
}

/// An `otherwise` handler: where the fallback code starts, and how many
/// values the stack held when the handler was pushed.
#[derive(Debug, Clone, Copy, PartialEq, Eq, Structural)]
pub struct Handler {
    pub fallback: usize,
    pub stack_size: usize,
}

/// The state of the machine.
pub struct VmState {
    /// The index of the next instruction.
    pub ip: usize,
    pub stack: Stack<i64>,
    pub locals: Vec<i64>,
    /// The high bytes that `WideArg` instructions gathered.
    pub wide_arg: usize,
    pub handlers: Vec<Handler>,
    /// The compound values made so far; a word on the stack that stands for
    /// one holds its place here.
    pub heap: Vec<Object>,
}

/// The state of the machine, as values.
pub struct VmView {
    pub ip: int,
    pub stack: Seq<i64>,
    /// How many values the stack accepts.
    pub max_stack: nat,
    pub locals: Seq<i64>,
    pub wide_arg: usize,
    pub handlers: Seq<Handler>,
    pub heap: Seq<ObjectView>,
}

impl View for VmState {
    type V = VmView;

    open spec fn view(&self) -> VmView {
        VmView {
            ip: self.ip as int,
            stack: self.stack@,
            max_stack: self.stack.max_len(),
            locals: self.locals@,
            wide_arg: self.wide_arg,
            handlers: self.handlers@,
            heap: self.heap@.map_values(|o: Object| o@),
        }
    }
}

/// A boolean as a word.
pub open spec fn word_of(b: bool) -> i64 {
    if b {
        1
    } else {
        0
    }
}

/// The integer comparison that an `IntCmpOp` operand names.
pub open spec fn compare(op: u8, a: i64, b: i64) -> Option<bool> {
    if op == 60 {
        Some(a < b)
    } else if op == 62 {
        Some(a > b)
    } else if op == 61 {
        Some(a == b)
    } else if op == 33 {
        Some(a != b)
    } else if op == 108 {
        Some(a <= b)
    } else if op == 103 {
        Some(a >= b)
    } else {
        None
    }
}

/// The integer operation that an `IntBinOp` operand names, other than the
/// power (see `wrapping_pow`): `None` for an unknown operand.
pub open spec fn arith(op: u8, a: i64, b: i64) -> Option<Result<i64, ErrorView>> {
    if op == 43 {
        Some(Ok(a.wrapping_add(b)))
    } else if op == 45 {
        Some(Ok(a.wrapping_sub(b)))
    } else if op == 42 {
        Some(Ok(a.wrapping_mul(b)))
    } else if op == 47 || op == 37 {
        if b == 0 {
            Some(Err(ErrorView::DivisionByZero))
        } else {
            match if op == 47 {
                a.checked_div(b)
            } else {
                a.checked_rem(b)
            } {
                Some(q) => Some(Ok(q)),
                None => Some(Err(ErrorView::IntegerOverflow)),
            }
        }
    } else {
        None
    }
}

/// Where a jump by `offset` from the instruction at `ip` lands: relative to
/// the next instruction.
pub open spec fn jump_target(ip: int, offset: i8) -> int {
    ip + 1 + offset
}

/// The compound value that the word `w` stands for in the heap `h`.
pub open spec fn object_at(h: Seq<ObjectView>, w: i64) -> Option<ObjectView> {
    if 0 <= w < h.len() {
        Some(h[w as int])
    } else {
        None
    }
}

/// What an instruction on compound values does from the state `v`, where
/// `next` is `v` moved to the next instruction.
///
/// `MakeArray(c)` and `MakeRecord(c)` take the top `c` values, `MakeMap(c)`
/// the top `c` key and value pairs, and each pushes the word of the new
/// value. `ArrayGet` takes an array and an index, counted from the end when
/// negative; `ArrayGetConst(c)` indexes by `c`; `MapGet` takes a map and a
/// key and finds its first entry; `RecordGet(c)` takes field `c`.
pub open spec fn spec_value_step(ins: Instruction, v: VmView, next: VmView) -> (
    Result<Step, ErrorView>,
    VmView,
) {
    let s = v.stack;
    let n = s.len();
    let room = n < v.max_stack;
    let h = v.heap;
    let space = h.len() < 0x7fff_ffff_ffff_ffff;
    let word = h.len() as i64;
    let ok = Ok::<Step, ErrorView>(Step::Continue);
    let bad = Err::<Step, ErrorView>(ErrorView::Malformed);
    match ins {
        Instruction::MakeArray(c) => if (c as int) <= n && (c > 0 || room) && space {
            (
                ok,
                VmView {
                    stack: s.subrange(0, n - c).push(word),
                    heap: h.push(ObjectView::Array(s.subrange(n - c, n as int))),
                    ..next
                },
            )
        } else {
            (bad, next)
        },
        Instruction::MakeRecord(c) => if (c as int) <= n && (c > 0 || room) && space {
            (
                ok,
                VmView {
                    stack: s.subrange(0, n - c).push(word),
                    heap: h.push(ObjectView::Record(s.subrange(n - c, n as int))),
                    ..next
                },
            )
        } else {
            (bad, next)
        },
        Instruction::MakeMap(c) => if 2 * c <= n && (c > 0 || room) && space {
            (
                ok,
                VmView {
                    stack: s.subrange(0, n - 2 * c).push(word),
                    heap: h.push(
                        ObjectView::Dict(sort_entries(pairs(s.subrange(n - 2 * c, n as int)))),
                    ),
                    ..next
                },
            )
        } else {
            (bad, next)
        },
        Instruction::ArrayGet => if n >= 2 {
            match object_at(h, s[n - 2]) {
                Some(ObjectView::Array(es)) => {
                    let index = s[n - 1];
                    let len = es.len();
                    let rest = s.subrange(0, n - 2);
                    if -len <= index < len {
                        let at = if index < 0 {
                            len + index
                        } else {
                            index as int
                        };
                        (ok, VmView { stack: rest.push(es[at]), ..next })
                    } else {
                        (
                            Err(ErrorView::IndexOutOfBounds { index, len: len as usize }),
                            VmView { stack: rest, ..next },
                        )
                    }
                },
                _ => (bad, next),
            }
        } else {
            (bad, next)
        },
        Instruction::ArrayGetConst(c) => if n >= 1 {
            match object_at(h, s[n - 1]) {
                Some(ObjectView::Array(es)) => if (c as int) < es.len() {
                    (ok, VmView { stack: s.drop_last().push(es[c as int]), ..next })
                } else {
                    (
                        Err(ErrorView::IndexOutOfBounds { index: c as i64, len: es.len() as usize }),
                        VmView { stack: s.drop_last(), ..next },
                    )
                },
                _ => (bad, next),
            }
        } else {
            (bad, next)
        },
        Instruction::MapGet => if n >= 2 {
            match object_at(h, s[n - 2]) {
                Some(ObjectView::Dict(es)) => {
                    let rest = s.subrange(0, n - 2);
                    match lookup_first(es, s[n - 1]) {
                        Some(x) => (ok, VmView { stack: rest.push(x), ..next }),
                        None => (
                            Err(ErrorView::KeyNotFound { key_display: signed_decimal(s[n - 1] as int) }),
                            VmView { stack: rest, ..next },
                        ),
                    }
                },
                _ => (bad, next),
            }
        } else {
            (bad, next)
        },
        Instruction::RecordGet(c) => if n >= 1 {
            match object_at(h, s[n - 1]) {
                Some(ObjectView::Record(fs)) => if (c as int) < fs.len() {
                    (ok, VmView { stack: s.drop_last().push(fs[c as int]), ..next })
                } else {
                    (bad, next)
                },
                _ => (bad, next),
            }
        } else {
            (bad, next)
        },
        _ => (bad, next),
    }
}

/// One step of the machine from the state `v`: the result and the state
/// after it.
pub open spec fn spec_step(v: VmView, instrs: Seq<Instruction>, consts: Seq<i64>) -> (
    Result<Step, ErrorView>,
    VmView,
) {
    let n = v.stack.len();
    let room = n < v.max_stack;
    let cont = VmView { wide_arg: 0, ..v };
    let next = VmView { ip: v.ip + 1, ..cont };
    let ok = Ok::<Step, ErrorView>(Step::Continue);
    let bad = Err::<Step, ErrorView>(ErrorView::Malformed);
    if !(0 <= v.ip < instrs.len()) {
        (bad, v)
    } else {
        match instrs[v.ip] {
            Instruction::ConstLoad(a) => {
                let idx = v.wide_arg | (a as usize);
                if idx < consts.len() && room {
                    (ok, VmView { stack: v.stack.push(consts[idx as int]), ..next })
                } else {
                    (bad, next)
                }
            },
            Instruction::ConstInt(x) => if room {
                (ok, VmView { stack: v.stack.push(x as i64), ..next })
            } else {
                (bad, next)
            },
            Instruction::ConstUInt(x) => if room {
                (ok, VmView { stack: v.stack.push(x as i64), ..next })
            } else {
                (bad, next)
            },
            Instruction::ConstTrue => if room {
                (ok, VmView { stack: v.stack.push(1), ..next })
            } else {
                (bad, next)
            },
            Instruction::ConstFalse => if room {
                (ok, VmView { stack: v.stack.push(0), ..next })
            } else {
                (bad, next)
            },
            Instruction::WideArg(a) => (
                ok,
                VmView { wide_arg: ((v.wide_arg | (a as usize)) << 8usize) as usize, ..next },
            ),
            Instruction::Dup => if n >= 1 && room {
                (ok, VmView { stack: v.stack.push(v.stack[n - 1]), ..next })
            } else {
                (bad, next)
            },
            Instruction::DupN(d) => if (d as int) < n && room {
                (ok, VmView { stack: v.stack.push(v.stack[n - 1 - d]), ..next })
            } else {
                (bad, next)
            },
            Instruction::Pop => if n >= 1 {
                (ok, VmView { stack: v.stack.drop_last(), ..next })
            } else {
                (bad, next)
            },
            Instruction::Swap => if n >= 2 {
                (
                    ok,
                    VmView {
                        stack: v.stack.subrange(0, n - 2).push(v.stack[n - 1]).push(v.stack[n - 2]),
                        ..next
                    },
                )
            } else {
                (bad, next)
            },
            Instruction::LoadLocal(i) => if (i as int) < v.locals.len() && room {
                (ok, VmView { stack: v.stack.push(v.locals[i as int]), ..next })
            } else {
                (bad, next)
            },
            Instruction::StoreLocal(i) => if n >= 1 {
                let grown = if (i as int) < v.locals.len() {
                    v.locals
                } else {
                    v.locals + Seq::new((i + 1 - v.locals.len()) as nat, |k: int| 0i64)
                };
                (
                    ok,
                    VmView {
                        stack: v.stack.drop_last(),
                        locals: grown.update(i as int, v.stack[n - 1]),
                        ..next
                    },
                )
            } else {
                (bad, next)
            },
            Instruction::IntBinOp(op) => if op == 94 {
                if n >= 2 {
                    let e = v.stack[n - 1];
                    if 0 <= e <= u32::MAX {
                        (
                            ok,
                            VmView {
                                stack: v.stack.subrange(0, n - 2).push(
                                    wrapping_pow(v.stack[n - 2], e as nat),
                                ),
                                ..next
                            },
                        )
                    } else {
                        (Ok(Step::Outside(instrs[v.ip])), next)
                    }
                } else {
                    (bad, next)
                }
            } else if n >= 2 {
                let rest = v.stack.subrange(0, n - 2);
                match arith(op, v.stack[n - 2], v.stack[n - 1]) {
                    Some(Ok(x)) => (ok, VmView { stack: rest.push(x), ..next }),
                    Some(Err(e)) => (Err(e), VmView { stack: rest, ..next }),
                    None => (bad, next),
                }
            } else {
                (bad, next)
            },
            Instruction::NegInt => if n >= 1 {
                (ok, VmView { stack: v.stack.drop_last().push(0i64.wrapping_sub(v.stack[n - 1])), ..next })
            } else {
                (bad, next)
            },
            Instruction::IncInt => if n >= 1 {
                (ok, VmView { stack: v.stack.drop_last().push(v.stack[n - 1].wrapping_add(1)), ..next })
            } else {
                (bad, next)
            },
            Instruction::DecInt => if n >= 1 {
                (ok, VmView { stack: v.stack.drop_last().push(v.stack[n - 1].wrapping_sub(1)), ..next })
            } else {
                (bad, next)
            },
            Instruction::IntCmpOp(op) => if n >= 2 {
                match compare(op, v.stack[n - 2], v.stack[n - 1]) {
                    Some(b) => (
                        ok,
                        VmView { stack: v.stack.subrange(0, n - 2).push(word_of(b)), ..next },
                    ),
                    None => (bad, next),
                }
            } else {
                (bad, next)
            },
            Instruction::And => if n >= 2 {
                (
                    ok,
                    VmView {
                        stack: v.stack.subrange(0, n - 2).push(
                            word_of(v.stack[n - 2] != 0 && v.stack[n - 1] != 0),
                        ),
                        ..next
                    },
                )
            } else {
                (bad, next)
            },
            Instruction::Or => if n >= 2 {
                (
                    ok,
                    VmView {
                        stack: v.stack.subrange(0, n - 2).push(
                            word_of(v.stack[n - 2] != 0 || v.stack[n - 1] != 0),
                        ),
                        ..next
                    },
                )
            } else {
                (bad, next)
            },
            Instruction::EqBool => if n >= 2 {
                (
                    ok,
                    VmView {
                        stack: v.stack.subrange(0, n - 2).push(
                            word_of((v.stack[n - 2] != 0) == (v.stack[n - 1] != 0)),
                        ),
                        ..next
                    },
                )
            } else {
                (bad, next)
            },
            Instruction::Not => if n >= 1 {
                (ok, VmView { stack: v.stack.drop_last().push(word_of(v.stack[n - 1] == 0)), ..next })
            } else {
                (bad, next)
            },
            Instruction::Jump(d) => {
                let t = jump_target(v.ip, d);
                if 0 <= t <= instrs.len() {
                    (ok, VmView { ip: t, ..cont })
                } else {
                    (bad, next)
                }
            },
            Instruction::JumpIfFalse(d) => {
                let t = jump_target(v.ip, d);
                if n >= 1 && 0 <= t <= instrs.len() {
                    let popped = VmView { stack: v.stack.drop_last(), ..next };
                    if v.stack[n - 1] == 0 {
                        (ok, VmView { ip: t, ..popped })
                    } else {
                        (ok, popped)
                    }
                } else {
                    (bad, next)
                }
            },
            Instruction::JumpIfTrue(d) => {
                let t = jump_target(v.ip, d);
                if n >= 1 && 0 <= t <= instrs.len() {
                    let popped = VmView { stack: v.stack.drop_last(), ..next };
                    if v.stack[n - 1] != 0 {
                        (ok, VmView { ip: t, ..popped })
                    } else {
                        (ok, popped)
                    }
                } else {
                    (bad, next)
                }
            },
            Instruction::JumpIfFalseNoPop(d) => {
                let t = jump_target(v.ip, d);
                if n >= 1 && 0 <= t <= instrs.len() {
                    if v.stack[n - 1] == 0 {
                        (ok, VmView { ip: t, ..cont })
                    } else {
                        (ok, next)
                    }
                } else {
                    (bad, next)
                }
            },
            Instruction::JumpIfTrueNoPop(d) => {
                let t = jump_target(v.ip, d);
                if n >= 1 && 0 <= t <= instrs.len() {
                    if v.stack[n - 1] != 0 {
                        (ok, VmView { ip: t, ..cont })
                    } else {
                        (ok, next)
                    }
                } else {
                    (bad, next)
                }
            },
            Instruction::Halt | Instruction::Return => (Ok(Step::Done), next),
            Instruction::PushOtherwise(d) => {
                let t = jump_target(v.ip, d);
                if 0 <= t <= instrs.len() {
                    (
                        ok,
                        VmView {
                            handlers: v.handlers.push(
                                Handler { fallback: t as usize, stack_size: n as usize },
                            ),
                            ..next
                        },
                    )
                } else {
                    (bad, next)
                }
            },
            Instruction::PopOtherwise => if v.handlers.len() > 0 {
                (ok, VmView { handlers: v.handlers.drop_last(), ..next })
            } else {
                (bad, next)
            },
            Instruction::PopOtherwiseAndJump(d) => {
                let t = jump_target(v.ip, d);
                if v.handlers.len() > 0 && 0 <= t <= instrs.len() {
                    (ok, VmView { ip: t, handlers: v.handlers.drop_last(), ..next })
                } else {
                    (bad, next)
                }
            },
            Instruction::Nop => (ok, next),
            Instruction::MakeArray(_) | Instruction::MakeRecord(_) | Instruction::MakeMap(_)
            | Instruction::ArrayGet | Instruction::ArrayGetConst(_) | Instruction::MapGet
            | Instruction::RecordGet(_) => spec_value_step(instrs[v.ip], v, next),
            _ => (Ok(Step::Outside(instrs[v.ip])), next),
        }
    }
}

/// A boolean as a word.
fn word(b: bool) -> (w: i64)
    ensures
        w == word_of(b),
{
    if b {
        1
    } else {
        0
    }
}

/// Where a jump by `offset` from the instruction at `ip` lands, when that is
/// an instruction of the code or just past its end.
fn target(ip: usize, offset: i8, len: usize) -> (r: Option<usize>)
    requires
        ip < len,
    ensures
        r == (if 0 <= jump_target(ip as int, offset) <= len {
            Some(jump_target(ip as int, offset) as usize)
        } else {
            None
        }),
{
    let base = ip + 1;
    if offset >= 0 {
        let k = offset as usize;
        if k <= len - base {
            Some(base + k)
        } else {
            None
        }
    } else {
        let k = (0i16 - offset as i16) as usize;
        if k <= base {
            Some(base - k)
        } else {
            None
        }
    }
}

/// The integer comparison that an `IntCmpOp` operand names.
fn compare_words(op: u8, a: i64, b: i64) -> (r: Option<bool>)
    ensures
        r == compare(op, a, b),
{
    if op == 60 {
        Some(a < b)
    } else if op == 62 {
        Some(a > b)
    } else if op == 61 {
        Some(a == b)
    } else if op == 33 {
        Some(a != b)
    } else if op == 108 {
        Some(a <= b)
    } else if op == 103 {
        Some(a >= b)
    } else {
        None
    }
}

/// Whether `arith` knows the operand.
pub open spec fn known_arith(op: u8) -> bool {
    op == 43 || op == 45 || op == 42 || op == 47 || op == 37
}

/// The integer operation that an `IntBinOp` operand names.
fn arith_words(op: u8, a: i64, b: i64) -> (r: Result<i64, RuntimeError>)
    requires
        known_arith(op),
    ensures
        Some(viewed(r)) == arith(op, a, b),
{
    if op == 43 {
        Ok(a.wrapping_add(b))
    } else if op == 45 {
        Ok(a.wrapping_sub(b))
    } else if op == 42 {
        Ok(a.wrapping_mul(b))
    } else if b == 0 {
        Err(RuntimeError::DivisionByZero)
    } else {
        let q = if op == 47 {
            a.checked_div(b)
        } else {
            a.checked_rem(b)
        };
        match q {
            Some(x) => Ok(x),
            None => Err(RuntimeError::IntegerOverflow),
        }
    }
}

impl VmState {
    /// A machine about to run the first instruction of `code`, with an empty
    /// stack that accepts `code.max_stack_size` values, no locals and no
    /// `otherwise` handler.
    pub fn new(code: &Code) -> (vm: VmState)
        ensures
            vm@ == (VmView {
                ip: 0,
                stack: Seq::empty(),
                max_stack: code.max_stack_size as nat,
                locals: Seq::empty(),
                wide_arg: 0,
                handlers: Seq::empty(),
                heap: Seq::empty(),
            }),
    {
        let vm = VmState {
            ip: 0,
            stack: Stack::new(code.max_stack_size),
            locals: Vec::new(),
            wide_arg: 0,
            handlers: Vec::new(),
            heap: Vec::new(),
        };
        assert(vm@.heap =~= Seq::<ObjectView>::empty());
        vm
    }
}

/// Stores `x` in local `i`, first growing the locals with zeros up to it.
fn store_local(locals: &mut Vec<i64>, i: u8, x: i64)
    ensures
        final(locals)@ == (if (i as int) < old(locals)@.len() {
            old(locals)@
        } else {
            old(locals)@ + Seq::new((i + 1 - old(locals)@.len()) as nat, |k: int| 0i64)
        }).update(i as int, x),
{
    let ghost l0 = locals@;
    while locals.len() <= i as usize
        invariant
            l0.len() <= locals.len(),
            l0.len() <= i + 1 ==> locals.len() <= i + 1,
            (i as int) < l0.len() ==> locals.len() == l0.len(),
            locals@ =~= l0 + Seq::new((locals.len() - l0.len()) as nat, |k: int| 0i64),
        decreases i + 1 - locals.len(),
    {
        locals.push(0);
    }
    proof {
        if (i as int) < l0.len() {
            assert(locals@ =~= l0);
        } else {
            assert(locals.len() == i + 1);
        }
    }
    locals.set(i as usize, x);
}

/// The instructions on constants, the stack and the locals.
spec fn is_data(ins: Instruction) -> bool {
    ins is ConstLoad || ins is ConstInt || ins is ConstUInt || ins is ConstTrue || ins is ConstFalse
        || ins is WideArg || ins is Dup || ins is DupN || ins is Pop || ins is Swap
        || ins is LoadLocal || ins is StoreLocal
}

/// The instructions on integers and booleans.
spec fn is_op(ins: Instruction) -> bool {
    ins is IntBinOp || ins is NegInt || ins is IncInt || ins is DecInt || ins is IntCmpOp
        || ins is And || ins is Or || ins is EqBool || ins is Not
}

/// The instructions on compound values.
spec fn is_value(ins: Instruction) -> bool {
    ins is MakeArray || ins is MakeRecord || ins is MakeMap || ins is ArrayGet
        || ins is ArrayGetConst || ins is MapGet || ins is RecordGet
}

/// The jumps, the handler instructions, `Halt`, `Return` and `Nop`.
spec fn is_control(ins: Instruction) -> bool {
    ins is Jump || ins is JumpIfFalse || ins is JumpIfTrue || ins is JumpIfFalseNoPop
        || ins is JumpIfTrueNoPop || ins is Halt || ins is Return || ins is PushOtherwise
        || ins is PopOtherwise || ins is PopOtherwiseAndJump || ins is Nop
}

/// Executes an instruction on constants, the stack or the locals.
fn step_data(
    vm: &mut VmState,
    code: &Code,
    ins: Instruction,
    ip: usize,
    wide: usize,
    Ghost(pre): Ghost<VmView>,
) -> (r: Result<Step, RuntimeError>)
    requires
        is_data(ins),
        0 <= pre.ip < code.instructions.len(),
        code.instructions@[pre.ip] == ins,
        old(vm)@ == (VmView { ip: pre.ip + 1, wide_arg: 0, ..pre }),
        ip == pre.ip,
        wide == pre.wide_arg,
        pre.stack.len() <= pre.max_stack,
    ensures
        (viewed(r), final(vm)@) == spec_step(pre, code.instructions@, code.constants@),
        final(vm).stack.within_capacity(),
{
    let n = vm.stack.len();
    let room = n < vm.stack.capacity();
    let ghost s0 = vm.stack@;
    match ins {
        Instruction::ConstLoad(a) => {
            let idx = wide | (a as usize);
            if idx < code.constants.len() && room {
                vm.stack.push(code.constants[idx]);
                Ok(Step::Continue)
            } else {
                Err(RuntimeError::Malformed)
            }
        },
        Instruction::ConstInt(x) => {
            if room {
                vm.stack.push(x as i64);
                Ok(Step::Continue)
            } else {
                Err(RuntimeError::Malformed)
            }
        },
        Instruction::ConstUInt(x) => {
            if room {
                vm.stack.push(x as i64);
                Ok(Step::Continue)
            } else {
                Err(RuntimeError::Malformed)
            }
        },
        Instruction::ConstTrue => {
            if room {
                vm.stack.push(1);
                Ok(Step::Continue)
            } else {
                Err(RuntimeError::Malformed)
            }
        },
        Instruction::ConstFalse => {
            if room {
                vm.stack.push(0);
                Ok(Step::Continue)
            } else {
                Err(RuntimeError::Malformed)
            }
        },
        Instruction::WideArg(a) => {
            vm.wide_arg = (wide | (a as usize)) << 8usize;
            Ok(Step::Continue)
        },
        Instruction::Dup => {
            if n >= 1 && room {
                let x = *vm.stack.peek_at(0).unwrap();
                vm.stack.push(x);
                Ok(Step::Continue)
            } else {
                Err(RuntimeError::Malformed)
            }
        },
        Instruction::DupN(d) => {
            if (d as usize) < n && room {
                let x = *vm.stack.peek_at(d as usize).unwrap();
                vm.stack.push(x);
                Ok(Step::Continue)
            } else {
                Err(RuntimeError::Malformed)
            }
        },
        Instruction::Pop => {
            if n >= 1 {
                vm.stack.pop();
                Ok(Step::Continue)
            } else {
                Err(RuntimeError::Malformed)
            }
        },
        Instruction::Swap => {
            if n >= 2 {
                let b = vm.stack.pop().unwrap();
                let a = vm.stack.pop().unwrap();
                vm.stack.push(b);
                vm.stack.push(a);
                assert(vm.stack@ =~= s0.subrange(0, n - 2).push(s0[n - 1]).push(s0[n - 2]));
                Ok(Step::Continue)
            } else {
                Err(RuntimeError::Malformed)
            }
        },
        Instruction::LoadLocal(i) => {
            if (i as usize) < vm.locals.len() && room {
                let x = vm.locals[i as usize];
                vm.stack.push(x);
                Ok(Step::Continue)
            } else {
                Err(RuntimeError::Malformed)
            }
        },
        Instruction::StoreLocal(i) => {
            if n >= 1 {
                let x = vm.stack.pop().unwrap();
                store_local(&mut vm.locals, i, x);
                Ok(Step::Continue)
            } else {
                Err(RuntimeError::Malformed)
            }
        },
        _ => Err(RuntimeError::Malformed),
    }
}

/// Executes an instruction on integers or booleans.
fn step_ops(
    vm: &mut VmState,
    code: &Code,
    ins: Instruction,
    ip: usize,
    wide: usize,
    Ghost(pre): Ghost<VmView>,
) -> (r: Result<Step, RuntimeError>)
    requires
        is_op(ins),
        0 <= pre.ip < code.instructions.len(),
        code.instructions@[pre.ip] == ins,
        old(vm)@ == (VmView { ip: pre.ip + 1, wide_arg: 0, ..pre }),
        ip == pre.ip,
        wide == pre.wide_arg,
        pre.stack.len() <= pre.max_stack,
    ensures
        (viewed(r), final(vm)@) == spec_step(pre, code.instructions@, code.constants@),
        final(vm).stack.within_capacity(),
{
    let n = vm.stack.len();
    let room = n < vm.stack.capacity();
    let ghost s0 = vm.stack@;
    match ins {
        Instruction::IntBinOp(op) => {
            if op == 94 {
                if n >= 2 {
                    let e = *vm.stack.peek_at(0).unwrap();
                    if 0 <= e && e <= u32::MAX as i64 {
                        vm.stack.pop();
                        let a = vm.stack.pop().unwrap();
                        vm.stack.push(pow_words(a, e as u32));
                        assert(vm.stack@ =~= s0.subrange(0, n - 2).push(
                            wrapping_pow(s0[n - 2], e as nat),
                        ));
                        Ok(Step::Continue)
                    } else {
                        Ok(Step::Outside(ins))
                    }
                } else {
                    Err(RuntimeError::Malformed)
                }
            } else if n >= 2 && known_arith_exec(op) {
                let b = vm.stack.pop().unwrap();
                let a = vm.stack.pop().unwrap();
                assert(vm.stack@ =~= s0.subrange(0, n - 2));
                match arith_words(op, a, b) {
                    Ok(x) => {
                        vm.stack.push(x);
                        Ok(Step::Continue)
                    },
                    Err(e) => Err(e),
                }
            } else {
                Err(RuntimeError::Malformed)
            }
        },
        Instruction::NegInt => {
            if n >= 1 {
                let x = vm.stack.pop().unwrap();
                vm.stack.push(0i64.wrapping_sub(x));
                Ok(Step::Continue)
            } else {
                Err(RuntimeError::Malformed)
            }
        },
        Instruction::IncInt => {
            if n >= 1 {
                let x = vm.stack.pop().unwrap();
                vm.stack.push(x.wrapping_add(1));
                Ok(Step::Continue)
            } else {
                Err(RuntimeError::Malformed)
            }
        },
        Instruction::DecInt => {
            if n >= 1 {
                let x = vm.stack.pop().unwrap();
                vm.stack.push(x.wrapping_sub(1));
                Ok(Step::Continue)
            } else {
                Err(RuntimeError::Malformed)
            }
        },
        Instruction::IntCmpOp(op) => {
            if n >= 2 {
                match compare_words(op, *vm.stack.peek_at(1).unwrap(), *vm.stack.peek_at(0).unwrap()) {
                    Some(c) => {
                        vm.stack.pop();
                        vm.stack.pop();
                        vm.stack.push(word(c));
                        assert(vm.stack@ =~= s0.subrange(0, n - 2).push(word_of(c)));
                        Ok(Step::Continue)
                    },
                    None => Err(RuntimeError::Malformed),
                }
            } else {
                Err(RuntimeError::Malformed)
            }
        },
        Instruction::And => {
            if n >= 2 {
                let b = vm.stack.pop().unwrap();
                let a = vm.stack.pop().unwrap();
                vm.stack.push(word(a != 0 && b != 0));
                assert(vm.stack@ =~= s0.subrange(0, n - 2).push(word_of(a != 0 && b != 0)));
                Ok(Step::Continue)
            } else {
                Err(RuntimeError::Malformed)
            }
        },
        Instruction::Or => {
            if n >= 2 {
                let b = vm.stack.pop().unwrap();
                let a = vm.stack.pop().unwrap();
                vm.stack.push(word(a != 0 || b != 0));
                assert(vm.stack@ =~= s0.subrange(0, n - 2).push(word_of(a != 0 || b != 0)));
                Ok(Step::Continue)
            } else {
                Err(RuntimeError::Malformed)
            }
        },
        Instruction::EqBool => {
            if n >= 2 {
                let b = vm.stack.pop().unwrap();
                let a = vm.stack.pop().unwrap();
                vm.stack.push(word((a != 0) == (b != 0)));
                assert(vm.stack@ =~= s0.subrange(0, n - 2).push(word_of((a != 0) == (b != 0))));
                Ok(Step::Continue)
            } else {
                Err(RuntimeError::Malformed)
            }
        },
        Instruction::Not => {
            if n >= 1 {
                let x = vm.stack.pop().unwrap();
                vm.stack.push(word(x == 0));
                Ok(Step::Continue)
            } else {
                Err(RuntimeError::Malformed)
            }
        },
        _ => Err(RuntimeError::Malformed),
    }
}

/// Executes an instruction on compound values.
fn step_values(
    vm: &mut VmState,
    code: &Code,
    ins: Instruction,
    ip: usize,
    wide: usize,
    Ghost(pre): Ghost<VmView>,
) -> (r: Result<Step, RuntimeError>)
    requires
        is_value(ins),
        0 <= pre.ip < code.instructions.len(),
        code.instructions@[pre.ip] == ins,
        old(vm)@ == (VmView { ip: pre.ip + 1, wide_arg: 0, ..pre }),
        ip == pre.ip,
        wide == pre.wide_arg,
        pre.stack.len() <= pre.max_stack,
    ensures
        (viewed(r), final(vm)@) == spec_step(pre, code.instructions@, code.constants@),
        final(vm).stack.within_capacity(),
{
    let n = vm.stack.len();
    let room = n < vm.stack.capacity();
    let hl = vm.heap.len();
    let space = (hl as u64) < 0x7fff_ffff_ffff_ffffu64;
    let ghost s0 = vm.stack@;
    let ghost h0 = vm@.heap;
    match ins {
        Instruction::MakeArray(c) | Instruction::MakeRecord(c) => {
            let k = c as usize;
            if k <= n && (k > 0 || room) && space {
                let words = words_of(vm.stack.top_n(k).unwrap());
                vm.stack.pop_n(k);
                let obj = match ins {
                    Instruction::MakeArray(_) => Object::Array(words),
                    _ => Object::Record(words),
                };
                vm.heap.push(obj);
                vm.stack.push(hl as i64);
                assert(vm@.heap =~= h0.push(obj@));
                Ok(Step::Continue)
            } else {
                Err(RuntimeError::Malformed)
            }
        },
        Instruction::MakeMap(c) => {
            let k = 2 * (c as usize);
            if k <= n && (c > 0 || room) && space {
                let obj = make_map(vm.stack.top_n(k).unwrap());
                vm.stack.pop_n(k);
                vm.heap.push(obj);
                vm.stack.push(hl as i64);
                assert(vm@.heap =~= h0.push(obj@));
                Ok(Step::Continue)
            } else {
                Err(RuntimeError::Malformed)
            }
        },
        Instruction::ArrayGet => {
            if n < 2 {
                return Err(RuntimeError::Malformed);
            }
            let w = *vm.stack.peek_at(1).unwrap();
            let index = *vm.stack.peek_at(0).unwrap();
            if w < 0 || (w as u64) >= (hl as u64) {
                return Err(RuntimeError::Malformed);
            }
            let found: Result<i64, usize> = match &vm.heap[w as usize] {
                Object::Array(es) => {
                    let len = es.len();
                    let li = len as i128;
                    let ii = index as i128;
                    if -li <= ii && ii < li {
                        let at = if ii < 0 {
                            (li + ii) as usize
                        } else {
                            ii as usize
                        };
                        Ok(es[at])
                    } else {
                        Err(len)
                    }
                },
                _ => {
                    return Err(RuntimeError::Malformed);
                },
            };
            vm.stack.pop();
            vm.stack.pop();
            assert(vm.stack@ =~= s0.subrange(0, n - 2));
            match found {
                Ok(x) => {
                    vm.stack.push(x);
                    Ok(Step::Continue)
                },
                Err(len) => Err(RuntimeError::IndexOutOfBounds { index, len }),
            }
        },
        Instruction::ArrayGetConst(c) => {
            if n < 1 {
                return Err(RuntimeError::Malformed);
            }
            let w = *vm.stack.peek_at(0).unwrap();
            if w < 0 || (w as u64) >= (hl as u64) {
                return Err(RuntimeError::Malformed);
            }
            let found: Result<i64, usize> = match &vm.heap[w as usize] {
                Object::Array(es) => if (c as usize) < es.len() {
                    Ok(es[c as usize])
                } else {
                    Err(es.len())
                },
                _ => {
                    return Err(RuntimeError::Malformed);
                },
            };
            vm.stack.pop();
            match found {
                Ok(x) => {
                    vm.stack.push(x);
                    Ok(Step::Continue)
                },
                Err(len) => Err(RuntimeError::IndexOutOfBounds { index: c as i64, len }),
            }
        },
        Instruction::MapGet => {
            if n < 2 {
                return Err(RuntimeError::Malformed);
            }
            let w = *vm.stack.peek_at(1).unwrap();
            let key = *vm.stack.peek_at(0).unwrap();
            if w < 0 || (w as u64) >= (hl as u64) {
                return Err(RuntimeError::Malformed);
            }
            let found = match &vm.heap[w as usize] {
                Object::Dict(es) => find_key(es, key),
                _ => {
                    return Err(RuntimeError::Malformed);
                },
            };
            vm.stack.pop();
            vm.stack.pop();
            assert(vm.stack@ =~= s0.subrange(0, n - 2));
            match found {
                Some(x) => {
                    vm.stack.push(x);
                    Ok(Step::Continue)
                },
                None => Err(RuntimeError::KeyNotFound { key_display: signed_text(key) }),
            }
        },
        Instruction::RecordGet(c) => {
            if n < 1 {
                return Err(RuntimeError::Malformed);
            }
            let w = *vm.stack.peek_at(0).unwrap();
            if w < 0 || (w as u64) >= (hl as u64) {
                return Err(RuntimeError::Malformed);
            }
            let x = match &vm.heap[w as usize] {
                Object::Record(fs) => if (c as usize) < fs.len() {
                    fs[c as usize]
                } else {
                    return Err(RuntimeError::Malformed);
                },
                _ => {
                    return Err(RuntimeError::Malformed);
                },
            };
            vm.stack.pop();
            vm.stack.push(x);
            Ok(Step::Continue)
        },
        _ => Err(RuntimeError::Malformed),
    }
}

/// Executes a jump, a handler instruction, `Halt`, `Return` or `Nop`.
fn step_control(
    vm: &mut VmState,
    code: &Code,
    ins: Instruction,
    ip: usize,
    wide: usize,
    Ghost(pre): Ghost<VmView>,
) -> (r: Result<Step, RuntimeError>)
    requires
        is_control(ins),
        0 <= pre.ip < code.instructions.len(),
        code.instructions@[pre.ip] == ins,
        old(vm)@ == (VmView { ip: pre.ip + 1, wide_arg: 0, ..pre }),
        ip == pre.ip,
        wide == pre.wide_arg,
        pre.stack.len() <= pre.max_stack,
    ensures
        (viewed(r), final(vm)@) == spec_step(pre, code.instructions@, code.constants@),
        final(vm).stack.within_capacity(),
{
    let len = code.instructions.len();
    let n = vm.stack.len();
    match ins {
        Instruction::Jump(d) => {
            match target(ip, d, len) {
                Some(t) => {
                    vm.ip = t;
                    Ok(Step::Continue)
                },
                None => Err(RuntimeError::Malformed),
            }
        },
        Instruction::JumpIfFalse(d) => {
            match target(ip, d, len) {
                Some(t) => {
                    if n >= 1 {
                        let c = vm.stack.pop().unwrap();
                        if c == 0 {
                            vm.ip = t;
                        }
                        Ok(Step::Continue)
                    } else {
                        Err(RuntimeError::Malformed)
                    }
                },
                None => Err(RuntimeError::Malformed),
            }
        },
        Instruction::JumpIfTrue(d) => {
            match target(ip, d, len) {
                Some(t) => {
                    if n >= 1 {
                        let c = vm.stack.pop().unwrap();
                        if c != 0 {
                            vm.ip = t;
                        }
                        Ok(Step::Continue)
                    } else {
                        Err(RuntimeError::Malformed)
                    }
                },
                None => Err(RuntimeError::Malformed),
            }
        },
        Instruction::JumpIfFalseNoPop(d) => {
            match target(ip, d, len) {
                Some(t) => {
                    if n >= 1 {
                        if *vm.stack.peek_at(0).unwrap() == 0 {
                            vm.ip = t;
                        }
                        Ok(Step::Continue)
                    } else {
                        Err(RuntimeError::Malformed)
                    }
                },
                None => Err(RuntimeError::Malformed),
            }
        },
        Instruction::JumpIfTrueNoPop(d) => {
            match target(ip, d, len) {
                Some(t) => {
                    if n >= 1 {
                        if *vm.stack.peek_at(0).unwrap() != 0 {
                            vm.ip = t;
                        }
                        Ok(Step::Continue)
                    } else {
                        Err(RuntimeError::Malformed)
                    }
                },
                None => Err(RuntimeError::Malformed),
            }
        },
        Instruction::Halt | Instruction::Return => Ok(Step::Done),
        Instruction::PushOtherwise(d) => {
            match target(ip, d, len) {
                Some(t) => {
                    vm.handlers.push(Handler { fallback: t, stack_size: n });
                    Ok(Step::Continue)
                },
                None => Err(RuntimeError::Malformed),
            }
        },
        Instruction::PopOtherwise => {
            if vm.handlers.len() > 0 {
                vm.handlers.pop();
                Ok(Step::Continue)
            } else {
                Err(RuntimeError::Malformed)
            }
        },
        Instruction::PopOtherwiseAndJump(d) => {
            match target(ip, d, len) {
                Some(t) => {
                    if vm.handlers.len() > 0 {
                        vm.handlers.pop();
                        vm.ip = t;
                        Ok(Step::Continue)
                    } else {
                        Err(RuntimeError::Malformed)
                    }
                },
                None => Err(RuntimeError::Malformed),
            }
        },
        Instruction::Nop => Ok(Step::Continue),
        _ => Err(RuntimeError::Malformed),
    }
}

/// Executes the instruction at `vm.ip`, as `spec_step` says.
pub fn step(vm: &mut VmState, code: &Code) -> (r: Result<Step, RuntimeError>)
    requires
        old(vm)@.stack.len() <= old(vm)@.max_stack,
    ensures
        (viewed(r), final(vm)@) == spec_step(old(vm)@, code.instructions@, code.constants@),
        final(vm)@.stack.len() <= final(vm)@.max_stack,
{
    let ip = vm.ip;
    let len = code.instructions.len();
    if ip >= len {
        return Err(RuntimeError::Malformed);
    }
    let ins = code.instructions[ip];
    let wide = vm.wide_arg;
    let ghost pre = vm@;
    vm.ip = ip + 1;
    vm.wide_arg = 0;
    match ins {
        Instruction::ConstLoad(_) | Instruction::ConstInt(_) | Instruction::ConstUInt(_)
        | Instruction::ConstTrue | Instruction::ConstFalse | Instruction::WideArg(_)
        | Instruction::Dup | Instruction::DupN(_) | Instruction::Pop | Instruction::Swap
        | Instruction::LoadLocal(_) | Instruction::StoreLocal(_) => step_data(
            vm,
            code,
            ins,
            ip,
            wide,
            Ghost(pre),
        ),
        Instruction::IntBinOp(_) | Instruction::NegInt | Instruction::IncInt
        | Instruction::DecInt | Instruction::IntCmpOp(_) | Instruction::And | Instruction::Or
        | Instruction::EqBool | Instruction::Not => step_ops(vm, code, ins, ip, wide, Ghost(pre)),
        Instruction::Jump(_) | Instruction::JumpIfFalse(_) | Instruction::JumpIfTrue(_)
        | Instruction::JumpIfFalseNoPop(_) | Instruction::JumpIfTrueNoPop(_) | Instruction::Halt
        | Instruction::Return | Instruction::PushOtherwise(_) | Instruction::PopOtherwise
        | Instruction::PopOtherwiseAndJump(_) | Instruction::Nop => step_control(
            vm,
            code,
            ins,
            ip,
            wide,
            Ghost(pre),
        ),
        Instruction::MakeArray(_) | Instruction::MakeRecord(_) | Instruction::MakeMap(_)
        | Instruction::ArrayGet | Instruction::ArrayGetConst(_) | Instruction::MapGet
        | Instruction::RecordGet(_) => step_values(vm, code, ins, ip, wide, Ghost(pre)),
        _ => Ok(Step::Outside(ins)),
    }
}

/// Up to `fuel` steps from `v`, stopping at the first step that does not
/// return `Step::Continue`; `Ok(Step::Continue)` when the fuel runs out.
pub open spec fn spec_main_loop(v: VmView, instrs: Seq<Instruction>, consts: Seq<i64>, fuel: nat) -> (
    Result<Step, ErrorView>,
    VmView,
)
    decreases fuel,
{
    if fuel == 0 {
        (Ok(Step::Continue), v)
    } else {
        let (r, w) = spec_step(v, instrs, consts);
        if r == Ok::<Step, ErrorView>(Step::Continue) {
            spec_main_loop(w, instrs, consts, (fuel - 1) as nat)
        } else {
            (r, w)
        }
    }
}

/// Whether the innermost `otherwise` handler of `v` takes the error `e`:
/// it takes every runtime error of the program, not malformed code.
pub open spec fn handled(e: ErrorView, v: VmView) -> bool {
    e != ErrorView::Malformed && v.handlers.len() > 0
}

/// The state in which the innermost handler resumes: at its fallback code,
/// with the stack cut back to the size it had when the handler was pushed.
pub open spec fn recover(v: VmView) -> VmView {
    let h = v.handlers.last();
    VmView { ip: h.fallback as int, stack: v.stack.subrange(0, h.stack_size as int), wide_arg: 0, ..v }
}

/// Up to `fuel` steps from `v`, where a runtime error that a handler takes
/// resumes at the handler's fallback code. An error that no handler takes
/// clears the stack and ends the run.
pub open spec fn spec_run(v: VmView, instrs: Seq<Instruction>, consts: Seq<i64>, fuel: nat) -> (
    Result<Step, ErrorView>,
    VmView,
)
    decreases fuel,
{
    if fuel == 0 {
        (Ok(Step::Continue), v)
    } else {
        let (r, w) = spec_step(v, instrs, consts);
        match r {
            Ok(Step::Continue) => spec_run(w, instrs, consts, (fuel - 1) as nat),
            Ok(_) => (r, w),
            Err(e) => if handled(e, w) {
                if w.handlers.last().stack_size <= w.stack.len() {
                    spec_run(recover(w), instrs, consts, (fuel - 1) as nat)
                } else {
                    (Err(ErrorView::Malformed), VmView { stack: Seq::empty(), ..w })
                }
            } else {
                (Err(e), VmView { stack: Seq::empty(), ..w })
            },
        }
    }
}

/// Runs up to `fuel` steps, as `spec_main_loop` says.
pub fn run_main_loop(vm: &mut VmState, code: &Code, fuel: usize) -> (r: Result<Step, RuntimeError>)
    requires
        old(vm)@.stack.len() <= old(vm)@.max_stack,
    ensures
        (viewed(r), final(vm)@) == spec_main_loop(
            old(vm)@,
            code.instructions@,
            code.constants@,
            fuel as nat,
        ),
{
    let ghost goal = spec_main_loop(vm@, code.instructions@, code.constants@, fuel as nat);
    let mut left = fuel;
    while left > 0
        invariant
            spec_main_loop(vm@, code.instructions@, code.constants@, left as nat) == goal,
            goal == spec_main_loop(old(vm)@, code.instructions@, code.constants@, fuel as nat),
            vm@.stack.len() <= vm@.max_stack,
        decreases left,
    {
        let r = step(vm, code);
        match r {
            Ok(Step::Continue) => {
                left = left - 1;
            },
            _ => {
                return r;
            },
        }
    }
    Ok(Step::Continue)
}

/// Runs up to `fuel` steps, as `spec_run` says: the main loop together with
/// the `otherwise` handlers that resume after a runtime error.
pub fn run(vm: &mut VmState, code: &Code, fuel: usize) -> (r: Result<Step, RuntimeError>)
    requires
        old(vm)@.stack.len() <= old(vm)@.max_stack,
    ensures
        (viewed(r), final(vm)@) == spec_run(old(vm)@, code.instructions@, code.constants@, fuel as nat),
{
    let ghost goal = spec_run(vm@, code.instructions@, code.constants@, fuel as nat);
    let mut left = fuel;
    while left > 0
        invariant
            spec_run(vm@, code.instructions@, code.constants@, left as nat) == goal,
            goal == spec_run(old(vm)@, code.instructions@, code.constants@, fuel as nat),
            vm@.stack.len() <= vm@.max_stack,
        decreases left,
    {
        let r = step(vm, code);
        match r {
            Ok(Step::Continue) => {
                left = left - 1;
            },
            Ok(_) => {
                return r;
            },
            Err(e) => {
                let nh = vm.handlers.len();
                let takes = match e {
                    RuntimeError::Malformed => false,
                    _ => nh > 0,
                };
                if takes {
                    let h = vm.handlers[nh - 1];
                    if h.stack_size <= vm.stack.len() {
                        vm.stack.pop_n(vm.stack.len() - h.stack_size);
                        vm.ip = h.fallback;
                        vm.wide_arg = 0;
                        left = left - 1;
                    } else {
                        vm.stack.clear();
                        return Err(RuntimeError::Malformed);
                    }
                } else {
                    vm.stack.clear();
                    return Err(e);
                }
            },
        }
    }
    Ok(Step::Continue)
}

/// More fuel changes nothing once a run has stopped: a run that ends (in
/// `Done`, an instruction for the caller, or an error) within `f1` steps
/// ends the same way, in the same state, with any larger fuel.
pub proof fn law_run_fuel(v: VmView, instrs: Seq<Instruction>, consts: Seq<i64>, f1: nat, f2: nat)
    requires
        f1 <= f2,
        spec_run(v, instrs, consts, f1).0 != Ok::<Step, ErrorView>(Step::Continue),
    ensures
        spec_run(v, instrs, consts, f2) == spec_run(v, instrs, consts, f1),
    decreases f1,
{
    if f1 > 0 {
        let (r, w) = spec_step(v, instrs, consts);
        match r {
            Ok(Step::Continue) => law_run_fuel(w, instrs, consts, (f1 - 1) as nat, (f2 - 1) as nat),
            Ok(_) => {},
            Err(e) => if handled(e, w) && w.handlers.last().stack_size <= w.stack.len() {
                law_run_fuel(recover(w), instrs, consts, (f1 - 1) as nat, (f2 - 1) as nat);
            },
        }
    }
}

/// A run that ends in an error leaves the stack empty, whether the error
/// came straight from an instruction or from a handler that could not
/// resume.
pub proof fn law_run_error_clears_stack(
    v: VmView,
    instrs: Seq<Instruction>,
    consts: Seq<i64>,
    fuel: nat,
)
    ensures
        spec_run(v, instrs, consts, fuel).0 is Err ==> spec_run(v, instrs, consts, fuel).1.stack
            =~= Seq::<i64>::empty(),
    decreases fuel,
{
    if fuel > 0 {
        let (r, w) = spec_step(v, instrs, consts);
        match r {
            Ok(Step::Continue) => law_run_error_clears_stack(w, instrs, consts, (fuel - 1) as nat),
            Ok(_) => {},
            Err(e) => if handled(e, w) && w.handlers.last().stack_size <= w.stack.len() {
                law_run_error_clears_stack(recover(w), instrs, consts, (fuel - 1) as nat);
            },
        }
    }
}

/// A runtime error inside an `otherwise` region is answered by the region's
/// fallback: the run goes on from the handler's fallback code, with the
/// stack cut back to the size it had when the handler was pushed and the
/// handler still in place.
pub proof fn law_otherwise_resumes(
    v: VmView,
    instrs: Seq<Instruction>,
    consts: Seq<i64>,
    fuel: nat,
)
    requires
        fuel > 0,
        spec_step(v, instrs, consts).0 is Err,
        handled(spec_step(v, instrs, consts).0->Err_0, spec_step(v, instrs, consts).1),
        spec_step(v, instrs, consts).1.handlers.last().stack_size <= spec_step(
            v,
            instrs,
            consts,
        ).1.stack.len(),
    ensures
        ({
            let w = spec_step(v, instrs, consts).1;
            let h = w.handlers.last();
            &&& spec_run(v, instrs, consts, fuel) == spec_run(
                recover(w),
                instrs,
                consts,
                (fuel - 1) as nat,
            )
            &&& recover(w).ip == h.fallback
            &&& recover(w).stack == w.stack.subrange(0, h.stack_size as int)
            &&& recover(w).handlers == w.handlers
        }),
{
}

/// The number of distinct words.
pub open spec fn word_range() -> int {
    0x1_0000_0000_0000_0000
}

/// `a` to the power `e`, wrapped to a word as a release build computes it.
pub open spec fn wrapping_pow(a: i64, e: nat) -> i64 {
    signed_crop(pow(a as int, e))
}

/// A wrapped integer keeps its residue.
proof fn lemma_crop_residue(z: int)
    ensures
        signed_crop(z) as int % word_range() == z % word_range(),
{
    let t = z % word_range();
    assert(0 <= t < word_range());
    if t > i64::MAX as int {
        assert((t - word_range()) % word_range() == t) by {
            lemma_mod_sub_multiples_vanish(t, word_range());
            lemma_small_mod(t as nat, word_range() as nat);
        }
    } else {
        lemma_small_mod(t as nat, word_range() as nat);
    }
}

/// A word is the wrapped value of every integer with its residue.
proof fn lemma_crop_unique(r: i64, z: int)
    requires
        r as int % word_range() == z % word_range(),
    ensures
        r == signed_crop(z),
{
    lemma_crop_residue(z);
    let c = signed_crop(z);
    assert(c as int % word_range() == r as int % word_range());
    if r < 0 {
        assert((r as int) % word_range() == r + word_range()) by {
            lemma_small_mod((r + word_range()) as nat, word_range() as nat);
            lemma_mod_add_multiples_vanish(r as int, word_range());
        }
    } else {
        lemma_small_mod(r as nat, word_range() as nat);
    }
    if c < 0 {
        assert((c as int) % word_range() == c + word_range()) by {
            lemma_small_mod((c + word_range()) as nat, word_range() as nat);
            lemma_mod_add_multiples_vanish(c as int, word_range());
        }
    } else {
        lemma_small_mod(c as nat, word_range() as nat);
    }
}

/// `a` to the power `e`, wrapped, by repeated squaring.
fn pow_words(a: i64, e: u32) -> (r: i64)
    ensures
        r == wrapping_pow(a, e as nat),
{
    let ghost m = word_range();
    let mut r: i64 = 1;
    let mut base: i64 = a;
    let mut k: u32 = e;
    proof {
        lemma_pow0(base as int);
    }
    while k > 0
        invariant
            m == word_range(),
            (r as int * pow(base as int, k as nat)) % m == pow(a as int, e as nat) % m,
        decreases k,
    {
        let ghost r0 = r as int;
        let ghost b0 = base as int;
        let ghost k0 = k as nat;
        let odd = k % 2 == 1;
        if odd {
            r = r.wrapping_mul(base);
        }
        base = base.wrapping_mul(base);
        k = k / 2;
        proof {
            let r1: int = if odd { r0 * b0 } else { r0 };
            let p1 = pow(b0 * b0, k as nat);
            // the new word is congruent to the exact value
            lemma_crop_residue(r1);
            lemma_crop_residue(b0 * b0);
            assert(r as int % m == r1 % m);
            assert(base as int % m == (b0 * b0) % m);
            lemma_pow_mod_noop(base as int, k as nat, m);
            lemma_pow_mod_noop(b0 * b0, k as nat, m);
            assert(pow(base as int, k as nat) % m == p1 % m);
            lemma_mul_mod_noop(r as int, pow(base as int, k as nat), m);
            lemma_mul_mod_noop(r1, p1, m);
            assert((r as int * pow(base as int, k as nat)) % m == (r1 * p1) % m);
            // and the exact value is unchanged
            lemma_square_is_pow2(b0);
            lemma_pow_multiplies(b0, 2, k as nat);
            assert(p1 == pow(b0, 2 * k as nat));
            if odd {
                assert(k0 == 2 * k + 1);
                lemma_pow_adds(b0, 1, 2 * k as nat);
                lemma_pow1(b0);
                assert(pow(b0, k0) == b0 * p1);
                assert(r1 * p1 == r0 * pow(b0, k0)) by (nonlinear_arith)
                    requires
                        r1 == r0 * b0,
                        pow(b0, k0) == b0 * p1,
                ;
            } else {
                assert(k0 == 2 * k);
            }
        }
    }
    proof {
        lemma_pow0(base as int);
        lemma_crop_unique(r, pow(a as int, e as nat));
    }
    r
}

/// A compound value never changes once made: a step keeps every value of
/// the heap where it was, adding at most one at the end.
pub proof fn law_step_keeps_heap(v: VmView, instrs: Seq<Instruction>, consts: Seq<i64>)
    ensures
        ({
            let h = spec_step(v, instrs, consts).1.heap;
            h == v.heap || (h.len() == v.heap.len() + 1 && h.subrange(0, v.heap.len() as int)
                == v.heap)
        }),
{
    let h = spec_step(v, instrs, consts).1.heap;
    if h != v.heap {
        assert(h.subrange(0, v.heap.len() as int) =~= v.heap);
    }
}

/// The relation that the text of a comparison operator names.
pub open spec fn named_relation(symbol: Seq<char>, a: int, b: int) -> Option<bool> {
    if symbol.len() == 1 && symbol[0] == '<' {
        Some(a < b)
    } else if symbol.len() == 1 && symbol[0] == '>' {
        Some(a > b)
    } else if symbol.len() == 2 && symbol[0] == '=' && symbol[1] == '=' {
        Some(a == b)
    } else if symbol.len() == 2 && symbol[0] == '!' && symbol[1] == '=' {
        Some(a != b)
    } else if symbol.len() == 2 && symbol[0] == '<' && symbol[1] == '=' {
        Some(a <= b)
    } else if symbol.len() == 2 && symbol[0] == '>' && symbol[1] == '=' {
        Some(a >= b)
    } else {
        None
    }
}

/// An integer comparison computes the relation that its operand is shown
/// as: the machine and the debugging text agree on what each comparison
/// byte means.
pub proof fn law_compare_as_shown(op: u8, a: i64, b: i64)
    ensures
        compare(op, a, b) == named_relation(comparison_text(op), a as int, b as int),
{
    let t = comparison_text(op);
    if !(op == 0x3C || op == 0x3E || op == 0x3D || op == 0x21 || op == 0x6C || op == 0x67) {
        assert(t.len() == 4);
    }
}

/// `IntCmpOp` pops two integers `a` (below) and `b` (on top) and pushes `1`
/// exactly when `a < b`, `a > b`, `a == b`, `a != b`, `a <= b` or `a >= b`
/// holds, for the operand bytes of `<`, `>`, `=`, `!`, `l` and `g`, and `0`
/// otherwise; any other operand byte is malformed code.
pub proof fn law_int_comparison(v: VmView, instrs: Seq<Instruction>, consts: Seq<i64>)
    requires
        0 <= v.ip < instrs.len(),
        instrs[v.ip] is IntCmpOp,
        v.stack.len() >= 2,
    ensures
        ({
            let op = instrs[v.ip]->IntCmpOp_0;
            let n = v.stack.len();
            let a = v.stack[n - 2];
            let b = v.stack[n - 1];
            let (r, w) = spec_step(v, instrs, consts);
            let holds = (op == 0x3C && a < b) || (op == 0x3E && a > b) || (op == 0x3D && a == b)
                || (op == 0x21 && a != b) || (op == 0x6C && a <= b) || (op == 0x67 && a >= b);
            if op == 0x3C || op == 0x3E || op == 0x3D || op == 0x21 || op == 0x6C || op == 0x67 {
                &&& r == Ok::<Step, ErrorView>(Step::Continue)
                &&& w.stack == v.stack.subrange(0, n - 2).push(if holds { 1i64 } else { 0i64 })
                &&& w.ip == v.ip + 1
            } else {
                r == Err::<Step, ErrorView>(ErrorView::Malformed)
            }
        }),
{
}

/// The size of an integer.
pub open spec fn magnitude(x: int) -> int {
    if x < 0 {
        -x
    } else {
        x
    }
}

/// `q` and `m` are the quotient and remainder of `a` by `b` when division
/// rounds toward zero: `a == q * b + m`, the remainder smaller than the
/// divisor in size and of the sign of `a`.
pub open spec fn truncated_division(a: int, b: int, q: int, m: int) -> bool {
    &&& a == q * b + m
    &&& magnitude(m) < magnitude(b)
    &&& (m == 0 || (m < 0) == (a < 0))
}

/// The quotient and the remainder that the machine computes, by the signs
/// of the operands.
proof fn lemma_truncated(x: int, d: int)
    requires
        d != 0,
    ensures
        ({
            let q = if x == 0 {
                0
            } else if x > 0 && d > 0 {
                x / d
            } else if x < 0 && d < 0 {
                ((x * -1) / (d * -1))
            } else if x < 0 {
                ((x * -1) / d) * -1
            } else {
                (x / (d * -1)) * -1
            };
            let m = if x == 0 {
                0
            } else if x > 0 && d > 0 {
                x % d
            } else if x < 0 && d < 0 {
                ((x * -1) % (d * -1)) * -1
            } else if x < 0 {
                ((x * -1) % d) * -1
            } else {
                x % (d * -1)
            };
            truncated_division(x, d, q, m)
        }),
{
    if x > 0 && d > 0 {
        lemma_fundamental_div_mod(x, d);
        lemma_mod_pos_bound(x, d);
        let q = x / d;
        let m = x % d;
        assert(x == q * d + m) by (nonlinear_arith)
            requires
                x == d * q + m,
        ;
    } else if x < 0 && d < 0 {
        let y = x * -1;
        let e = d * -1;
        lemma_fundamental_div_mod(y, e);
        lemma_mod_pos_bound(y, e);
        let q = y / e;
        let m = (y % e) * -1;
        assert(x == q * d + m) by (nonlinear_arith)
            requires
                y == e * q + y % e,
                m == (y % e) * -1,
                y == x * -1,
                e == d * -1,
        ;
    } else if x < 0 && d > 0 {
        let y = x * -1;
        lemma_fundamental_div_mod(y, d);
        lemma_mod_pos_bound(y, d);
        let q = (y / d) * -1;
        let m = (y % d) * -1;
        assert(x == q * d + m) by (nonlinear_arith)
            requires
                y == d * (y / d) + y % d,
                q == (y / d) * -1,
                m == (y % d) * -1,
                y == x * -1,
        ;
    } else if x > 0 && d < 0 {
        let e = d * -1;
        lemma_fundamental_div_mod(x, e);
        lemma_mod_pos_bound(x, e);
        let q = (x / e) * -1;
        let m = x % e;
        assert(x == q * d + m) by (nonlinear_arith)
            requires
                x == e * (x / e) + m,
                q == (x / e) * -1,
                e == d * -1,
        ;
    }
}

/// Dividing a nonnegative number by a positive one gives a nonnegative
/// quotient no larger than the number, and at most half of it for a divisor
/// of two or more.
proof fn lemma_quotient_bound(y: int, e: int)
    requires
        0 <= y,
        1 <= e,
    ensures
        0 <= y / e <= y,
        e >= 2 ==> y / e <= y / 2,
{
    lemma_div_pos_is_pos(y, e);
    lemma_div_is_ordered_by_denominator(y, 1, e);
    if e >= 2 {
        lemma_div_is_ordered_by_denominator(y, 2, e);
    }
}

/// `IntBinOp` on integers `a` (below) and `b` (on top), for the operand
/// bytes of `+`, `-`, `*`, `/` and `%`: the sum, difference and product are
/// the exact ones wrapped to a word (the same modulo 2^64); division and
/// remainder round toward zero; dividing by zero and the one quotient that
/// does not fit a word are errors; both operands are popped either way.
#[verifier::spinoff_prover]
#[verifier::rlimit(60)]
pub proof fn law_int_arithmetic(v: VmView, instrs: Seq<Instruction>, consts: Seq<i64>)
    requires
        0 <= v.ip < instrs.len(),
        instrs[v.ip] is IntBinOp,
        v.stack.len() >= 2,
    ensures
        ({
            let op = instrs[v.ip]->IntBinOp_0;
            let n = v.stack.len();
            let a = v.stack[n - 2] as int;
            let b = v.stack[n - 1] as int;
            let rest = v.stack.subrange(0, n - 2);
            let (r, w) = spec_step(v, instrs, consts);
            let x = w.stack.last() as int;
            let ok = Ok::<Step, ErrorView>(Step::Continue);
            &&& (op == 0x2B || op == 0x2D || op == 0x2A) ==> {
                &&& r == ok
                &&& w.stack.len() == n - 1
                &&& w.stack.drop_last() == rest
                &&& op == 0x2B ==> x % word_range() == (a + b) % word_range()
                &&& op == 0x2D ==> x % word_range() == (a - b) % word_range()
                &&& op == 0x2A ==> x % word_range() == (a * b) % word_range()
            }
            &&& (op == 0x2F || op == 0x25) && b == 0 ==> r == Err::<Step, ErrorView>(
                ErrorView::DivisionByZero,
            ) && w.stack == rest
            &&& (op == 0x2F || op == 0x25) && a == i64::MIN && b == -1 ==> r == Err::<
                Step,
                ErrorView,
            >(ErrorView::IntegerOverflow) && w.stack == rest
            &&& (op == 0x2F || op == 0x25) && b != 0 && !(a == i64::MIN && b == -1) ==> {
                &&& r == ok
                &&& w.stack.len() == n - 1
                &&& w.stack.drop_last() == rest
                &&& op == 0x2F ==> truncated_division(a, b, x, a - x * b)
                &&& op == 0x25 ==> exists|q: int| truncated_division(a, b, q, x)
            }
        }),
{
    let op = instrs[v.ip]->IntBinOp_0;
    let n = v.stack.len();
    let a = v.stack[n - 2];
    let b = v.stack[n - 1];
    let (r, w) = spec_step(v, instrs, consts);
    if op == 0x2B || op == 0x2D {
        assert(w.stack.drop_last() =~= v.stack.subrange(0, n - 2));
    } else if op == 0x2A {
        assert(w.stack.drop_last() =~= v.stack.subrange(0, n - 2));
        lemma_crop_residue(a * b);
    } else if (op == 0x2F || op == 0x25) && b != 0 && !(a == i64::MIN && b == -1) {
        lemma_truncated(a as int, b as int);
        let ai = a as int;
        let bi = b as int;
        if ai > 0 && bi > 0 {
            lemma_quotient_bound(ai, bi);
        } else if ai < 0 && bi < 0 {
            lemma_quotient_bound(-ai, -bi);
        } else if ai < 0 {
            lemma_quotient_bound(-ai, bi);
        } else if ai > 0 {
            lemma_quotient_bound(ai, -bi);
        }
        assert(w.stack.drop_last() =~= v.stack.subrange(0, n - 2));
        let x = w.stack.last() as int;
        if op == 0x2F {
            assert(a - x * b + x * b == a);
        } else {
            let ai = a as int;
            let bi = b as int;
            let q = if ai == 0 {
                0
            } else if ai > 0 && bi > 0 {
                ai / bi
            } else if ai < 0 && bi < 0 {
                ((ai * -1) / (bi * -1))
            } else if ai < 0 {
                ((ai * -1) / bi) * -1
            } else {
                (ai / (bi * -1)) * -1
            };
            assert(truncated_division(ai, bi, q, x));
        }
    }
}

/// `NegInt`, `IncInt` and `DecInt` replace the integer on top by its
/// negation, successor and predecessor, wrapped to a word.
pub proof fn law_int_unary(v: VmView, instrs: Seq<Instruction>, consts: Seq<i64>)
    requires
        0 <= v.ip < instrs.len(),
        instrs[v.ip] is NegInt || instrs[v.ip] is IncInt || instrs[v.ip] is DecInt,
        v.stack.len() >= 1,
    ensures
        ({
            let a = v.stack.last() as int;
            let (r, w) = spec_step(v, instrs, consts);
            let x = w.stack.last() as int;
            &&& r == Ok::<Step, ErrorView>(Step::Continue)
            &&& w.stack.len() == v.stack.len()
            &&& w.stack.drop_last() == v.stack.drop_last()
            &&& w.ip == v.ip + 1
            &&& instrs[v.ip] is NegInt ==> x % word_range() == (-a) % word_range()
            &&& instrs[v.ip] is IncInt ==> x % word_range() == (a + 1) % word_range()
            &&& instrs[v.ip] is DecInt ==> x % word_range() == (a - 1) % word_range()
        }),
{
    let (r, w) = spec_step(v, instrs, consts);
    assert(w.stack.drop_last() =~= v.stack.drop_last());
}

/// The boolean instructions read a word as false when it is zero and true
/// otherwise, and push `1` for true and `0` for false: `And` and `Or` of
/// the two words on top, `EqBool` whether they are both true or both false,
/// `Not` of the word on top.
pub proof fn law_booleans(v: VmView, instrs: Seq<Instruction>, consts: Seq<i64>)
    requires
        0 <= v.ip < instrs.len(),
        instrs[v.ip] is And || instrs[v.ip] is Or || instrs[v.ip] is EqBool || instrs[v.ip] is Not,
        v.stack.len() >= 2,
    ensures
        ({
            let n = v.stack.len();
            let a = v.stack[n - 2] != 0;
            let b = v.stack[n - 1] != 0;
            let (r, w) = spec_step(v, instrs, consts);
            let pushed = |t: bool| if t { 1i64 } else { 0i64 };
            &&& r == Ok::<Step, ErrorView>(Step::Continue)
            &&& w.ip == v.ip + 1
            &&& instrs[v.ip] is And ==> w.stack == v.stack.subrange(0, n - 2).push(pushed(a && b))
            &&& instrs[v.ip] is Or ==> w.stack == v.stack.subrange(0, n - 2).push(pushed(a || b))
            &&& instrs[v.ip] is EqBool ==> w.stack == v.stack.subrange(0, n - 2).push(pushed(a == b))
            &&& instrs[v.ip] is Not ==> w.stack == v.stack.drop_last().push(pushed(!b))
        }),
{
}

/// A jump by `d` continues at the instruction `d` places after the next
/// one; the conditional jumps read the word on top (zero is false), jump on
/// false or on true, and pop it unless they are the `NoPop` forms. A target
/// outside the code, or a condition missing, is malformed code.
pub proof fn law_jumps(v: VmView, instrs: Seq<Instruction>, consts: Seq<i64>)
    requires
        0 <= v.ip < instrs.len(),
        instrs[v.ip] is Jump || instrs[v.ip] is JumpIfFalse || instrs[v.ip] is JumpIfTrue
            || instrs[v.ip] is JumpIfFalseNoPop || instrs[v.ip] is JumpIfTrueNoPop,
    ensures
        ({
            let ins = instrs[v.ip];
            let d = match ins {
                Instruction::Jump(d) => d,
                Instruction::JumpIfFalse(d) => d,
                Instruction::JumpIfTrue(d) => d,
                Instruction::JumpIfFalseNoPop(d) => d,
                Instruction::JumpIfTrueNoPop(d) => d,
                _ => 0i8,
            };
            let t = v.ip + 1 + d;
            let n = v.stack.len();
            let (r, w) = spec_step(v, instrs, consts);
            let ok = Ok::<Step, ErrorView>(Step::Continue);
            &&& !(0 <= t <= instrs.len()) ==> r == Err::<Step, ErrorView>(ErrorView::Malformed)
            &&& ins is Jump && 0 <= t <= instrs.len() ==> r == ok && w.ip == t && w.stack == v.stack
            &&& !(ins is Jump) && n == 0 ==> r == Err::<Step, ErrorView>(ErrorView::Malformed)
            &&& !(ins is Jump) && n >= 1 && 0 <= t <= instrs.len() ==> {
                let top = v.stack[n - 1];
                let taken = if ins is JumpIfFalse || ins is JumpIfFalseNoPop {
                    top == 0
                } else {
                    top != 0
                };
                &&& r == ok
                &&& w.ip == if taken {
                    t
                } else {
                    v.ip + 1
                }
                &&& (ins is JumpIfFalse || ins is JumpIfTrue) ==> w.stack == v.stack.drop_last()
                &&& (ins is JumpIfFalseNoPop || ins is JumpIfTrueNoPop) ==> w.stack == v.stack
            }
        }),
{
}

/// The constants push themselves: `ConstInt` its signed operand,
/// `ConstUInt` its unsigned operand, `ConstTrue` one, `ConstFalse` zero,
/// `ConstLoad` the constant at its index (with no `WideArg` before it).
pub proof fn law_constants(v: VmView, instrs: Seq<Instruction>, consts: Seq<i64>)
    requires
        0 <= v.ip < instrs.len(),
        v.stack.len() < v.max_stack,
        v.wide_arg == 0,
    ensures
        ({
            let (r, w) = spec_step(v, instrs, consts);
            let ok = Ok::<Step, ErrorView>(Step::Continue);
            &&& instrs[v.ip] matches Instruction::ConstInt(x) ==> r == ok && w.stack == v.stack.push(
                x as i64,
            )
            &&& instrs[v.ip] matches Instruction::ConstUInt(x) ==> r == ok && w.stack
                == v.stack.push(x as i64) && 0 <= w.stack.last() < 256
            &&& instrs[v.ip] is ConstTrue ==> r == ok && w.stack == v.stack.push(1)
            &&& instrs[v.ip] is ConstFalse ==> r == ok && w.stack == v.stack.push(0)
            &&& instrs[v.ip] matches Instruction::ConstLoad(i) ==> ((i as int) < consts.len() ==> r
                == ok && w.stack == v.stack.push(consts[i as int])) && ((i as int) >= consts.len()
                ==> r == Err::<Step, ErrorView>(ErrorView::Malformed))
        }),
{
    assert(forall|i: u8| #[trigger] (0usize | (i as usize)) == i as usize) by (bit_vector);
}

/// The stack instructions: `Dup` pushes a copy of the top, `DupN(d)` a copy
/// of the value `d` places below the top, `Pop` drops the top, `Swap`
/// exchanges the two values on top.
pub proof fn law_stack_instructions(v: VmView, instrs: Seq<Instruction>, consts: Seq<i64>)
    requires
        0 <= v.ip < instrs.len(),
        v.stack.len() < v.max_stack,
    ensures
        ({
            let n = v.stack.len();
            let (r, w) = spec_step(v, instrs, consts);
            let ok = Ok::<Step, ErrorView>(Step::Continue);
            &&& instrs[v.ip] is Dup && n >= 1 ==> r == ok && w.stack == v.stack.push(v.stack[n - 1])
            &&& instrs[v.ip] matches Instruction::DupN(d) ==> ((d as int) < n ==> r == ok && w.stack
                == v.stack.push(v.stack[n - 1 - d])) && ((d as int) >= n ==> r == Err::<
                Step,
                ErrorView,
            >(ErrorView::Malformed))
            &&& instrs[v.ip] is Pop && n >= 1 ==> r == ok && w.stack == v.stack.subrange(0, n - 1)
            &&& instrs[v.ip] is Swap && n >= 2 ==> r == ok && w.stack.len() == n && w.stack.subrange(
                0,
                n - 2,
            ) == v.stack.subrange(0, n - 2) && w.stack[n - 2] == v.stack[n - 1] && w.stack[n - 1]
                == v.stack[n - 2]
        }),
{
    let n = v.stack.len();
    let (r, w) = spec_step(v, instrs, consts);
    if instrs[v.ip] is Pop && n >= 1 {
        assert(v.stack.drop_last() =~= v.stack.subrange(0, n - 1));
    }
    if instrs[v.ip] is Swap && n >= 2 {
        assert(w.stack.subrange(0, n - 2) =~= v.stack.subrange(0, n - 2));
    }
}

/// `LoadLocal(i)` pushes local `i`; `StoreLocal(i)` pops the top into local
/// `i`, first adding zero locals up to it, and leaves every other local as
/// it was.
pub proof fn law_locals(v: VmView, instrs: Seq<Instruction>, consts: Seq<i64>)
    requires
        0 <= v.ip < instrs.len(),
    ensures
        ({
            let n = v.stack.len();
            let l = v.locals;
            let (r, w) = spec_step(v, instrs, consts);
            let ok = Ok::<Step, ErrorView>(Step::Continue);
            let room = n < v.max_stack;
            &&& instrs[v.ip] is LoadLocal ==> {
                let i = instrs[v.ip]->LoadLocal_0 as int;
                (i < l.len() && room) ==> r == ok && w.stack == v.stack.push(l[i])
            }
            &&& instrs[v.ip] is StoreLocal && n >= 1 ==> {
                let i = instrs[v.ip]->StoreLocal_0 as int;
                &&& r == ok
                &&& w.stack == v.stack.drop_last()
                &&& w.locals.len() == if i < l.len() {
                    l.len() as int
                } else {
                    i + 1
                }
                &&& w.locals[i] == v.stack[n - 1]
                &&& forall|j: int|
                    0 <= j < w.locals.len() && j != i ==> #[trigger] w.locals[j] == if j < l.len() {
                        l[j]
                    } else {
                        0
                    }
            }
        }),
{
}

/// `PushOtherwise(d)` installs a handler whose fallback code starts `d`
/// places after the next instruction and which remembers the size of the
/// stack; `PopOtherwise` removes the innermost handler.
pub proof fn law_handler_instructions(v: VmView, instrs: Seq<Instruction>, consts: Seq<i64>)
    requires
        0 <= v.ip < instrs.len(),
        instrs.len() <= usize::MAX,
        v.stack.len() <= usize::MAX,
    ensures
        ({
            let (r, w) = spec_step(v, instrs, consts);
            let ok = Ok::<Step, ErrorView>(Step::Continue);
            &&& instrs[v.ip] is PushOtherwise ==> {
                let t = v.ip + 1 + instrs[v.ip]->PushOtherwise_0;
                (0 <= t && t <= instrs.len()) ==> {
                    &&& r == ok
                    &&& w.handlers.len() == v.handlers.len() + 1
                    &&& w.handlers.drop_last() == v.handlers
                    &&& w.handlers.last().fallback == t
                    &&& w.handlers.last().stack_size == v.stack.len()
                    &&& w.stack == v.stack
                }
            }
            &&& instrs[v.ip] is PopOtherwise && v.handlers.len() > 0 ==> r == ok && w.handlers
                == v.handlers.drop_last() && w.stack == v.stack
        }),
{
    let (r, w) = spec_step(v, instrs, consts);
    if instrs[v.ip] is PushOtherwise {
        let t = v.ip + 1 + instrs[v.ip]->PushOtherwise_0;
        if 0 <= t && t <= instrs.len() {
            assert(w.handlers.drop_last() =~= v.handlers);
        }
    }
}

/// `ArrayGet` indexes an array from the start with an index from zero, and
/// from the end with a negative index (`-1` is the last element); any other
/// index is out of bounds, reported with the index and the length.
pub proof fn law_array_get(v: VmView, instrs: Seq<Instruction>, consts: Seq<i64>)
    requires
        0 <= v.ip < instrs.len(),
        instrs[v.ip] is ArrayGet,
        v.stack.len() >= 2,
        object_at(v.heap, v.stack[v.stack.len() - 2]) matches Some(ObjectView::Array(_)),
        v.heap.len() <= usize::MAX,
    ensures
        ({
            let n = v.stack.len();
            let es = object_at(v.heap, v.stack[n - 2])->Some_0->Array_0;
            let i = v.stack[n - 1] as int;
            let len = es.len() as int;
            let rest = v.stack.subrange(0, n - 2);
            let (r, w) = spec_step(v, instrs, consts);
            &&& 0 <= i < len ==> r == Ok::<Step, ErrorView>(Step::Continue) && w.stack == rest.push(
                es[i],
            )
            &&& -len <= i < 0 ==> r == Ok::<Step, ErrorView>(Step::Continue) && w.stack == rest.push(
                es[len + i],
            )
            &&& (i >= len || i < -len) ==> w.stack == rest && r == Err::<Step, ErrorView>(
                ErrorView::IndexOutOfBounds { index: i as i64, len: len as usize },
            )
        }),
{
}

/// Whether `arith_words` knows the operand.
fn known_arith_exec(op: u8) -> (b: bool)
    ensures
        b == known_arith(op),
{
    op == 43 || op == 45 || op == 42 || op == 47 || op == 37
}

} // verus!
