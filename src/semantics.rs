use vstd::prelude::*;

use crate::error::VmError;

verus! {

pub const HALT: u8 = 0x00;
pub const JUMP: u8 = 0x01;
pub const JUMP_IF_ZERO: u8 = 0x02;
pub const PUSH_CONST: u8 = 0x10;
pub const LOAD_AT_DEPTH: u8 = 0x11;
pub const STORE_AT_DEPTH: u8 = 0x20;
pub const DROP_N: u8 = 0x21;
pub const ADD: u8 = 0x30;
pub const SUB: u8 = 0x31;
pub const MUL: u8 = 0x32;
pub const DIV: u8 = 0x33;
pub const MOD: u8 = 0x34;
pub const EQ: u8 = 0x40;
pub const GT: u8 = 0x41;
pub const LT: u8 = 0x42;
pub const GE: u8 = 0x43;
pub const LE: u8 = 0x44;

/// Where the machine stands between two instructions. The program itself
/// is kept apart: it never changes.
pub struct VmState {
    pub ip: int,
    pub stack: Seq<i32>,
}

pub open spec fn abs(x: int) -> int {
    if x < 0 {
        -x
    } else {
        x
    }
}

/// Integer division truncating toward zero (`b != 0`).
pub open spec fn trunc_div(a: int, b: int) -> int {
    let q = abs(a) / abs(b);
    if (a < 0) == (b < 0) {
        q
    } else {
        -q
    }
}

/// Remainder whose sign follows the dividend (`b != 0`).
pub open spec fn trunc_rem(a: int, b: int) -> int {
    let r = abs(a) % abs(b);
    if a < 0 {
        -r
    } else {
        r
    }
}

/// 32-bit division of `a` by `b`: truncating, and wrapping in the one case
/// that overflows (`i32::MIN / -1` gives `i32::MIN`).
pub open spec fn div_i32(a: i32, b: i32) -> i32 {
    if a == i32::MIN && b == -1 {
        i32::MIN
    } else {
        trunc_div(a as int, b as int) as i32
    }
}

pub open spec fn rem_i32(a: i32, b: i32) -> i32 {
    trunc_rem(a as int, b as int) as i32
}

pub open spec fn flag(b: bool) -> i32 {
    if b {
        1
    } else {
        0
    }
}

pub open spec fn is_binary_op(op: u8) -> bool {
    ADD <= op <= MOD || EQ <= op <= LE
}

/// What a binary instruction pushes, with `a` the first value popped (the
/// top) and `b` the second. Sums, differences and products wrap at 32 bits.
pub open spec fn binary_result(op: u8, a: i32, b: i32) -> Result<i32, VmError>
    recommends
        is_binary_op(op),
{
    if op == ADD {
        Ok(a.wrapping_add(b))
    } else if op == SUB {
        Ok(a.wrapping_sub(b))
    } else if op == MUL {
        Ok(a.wrapping_mul(b))
    } else if op == DIV {
        if b == 0 {
            Err(VmError::DivideByZero)
        } else {
            Ok(div_i32(a, b))
        }
    } else if op == MOD {
        if b == 0 {
            Err(VmError::DivideByZero)
        } else {
            Ok(rem_i32(a, b))
        }
    } else if op == EQ {
        Ok(flag(a == b))
    } else if op == GT {
        Ok(flag(a > b))
    } else if op == LT {
        Ok(flag(a < b))
    } else if op == GE {
        Ok(flag(a >= b))
    } else {
        Ok(flag(a <= b))
    }
}

/// Big-endian value of four bytes, read as an unsigned integer.
pub open spec fn be_u32(b0: u8, b1: u8, b2: u8, b3: u8) -> int {
    b0 * 0x100_0000 + b1 * 0x1_0000 + b2 * 0x100 + b3
}

/// Big-endian two's-complement value of four bytes.
pub open spec fn be_i32(b0: u8, b1: u8, b2: u8, b3: u8) -> int {
    let u = be_u32(b0, b1, b2, b3);
    if u >= 0x8000_0000 {
        u - 0x1_0000_0000
    } else {
        u
    }
}

/// The 32-bit immediate operand that starts at `pos`, if four bytes remain.
pub open spec fn immediate_at(code: Seq<u8>, pos: int) -> Option<i32> {
    if 0 <= pos && pos + 4 <= code.len() {
        Some(be_i32(code[pos], code[pos + 1], code[pos + 2], code[pos + 3]) as i32)
    } else {
        None
    }
}

/// Index of the element `d` places below the top of a stack of `len`
/// elements (`d == 0` is the top itself).
pub open spec fn depth_index(len: int, d: i32) -> int {
    len - d - 1
}

pub open spec fn in_stack(len: int, idx: int) -> bool {
    0 <= idx < len
}

pub open spec fn halted(code: Seq<u8>, s: VmState) -> bool {
    s.ip >= code.len()
}

/// The effect of executing one instruction of `code` in state `s`.
/// A halted state is left as it is.
pub open spec fn step_spec(code: Seq<u8>, s: VmState) -> Result<VmState, VmError> {
    let st = s.stack;
    let n = st.len() as int;
    if halted(code, s) {
        Ok(s)
    } else {
        let op = code[s.ip];
        let p = s.ip + 1;
        if op == HALT {
            Ok(VmState { ip: code.len() as int, stack: st })
        } else if op == JUMP {
            if n < 1 {
                Err(VmError::StackUnderflow)
            } else {
                Ok(VmState { ip: st[n - 1] as usize as int, stack: st.drop_last() })
            }
        } else if op == JUMP_IF_ZERO {
            if n < 2 {
                Err(VmError::StackUnderflow)
            } else {
                let target = st[n - 1];
                let cond = st[n - 2];
                Ok(VmState {
                    ip: if cond == 0 { target as usize as int } else { p },
                    stack: st.subrange(0, n - 2),
                })
            }
        } else if op == PUSH_CONST {
            match immediate_at(code, p) {
                None => Err(VmError::MalformedProgram),
                Some(v) => Ok(VmState { ip: p + 4, stack: st.push(v) }),
            }
        } else if op == LOAD_AT_DEPTH {
            match immediate_at(code, p) {
                None => Err(VmError::MalformedProgram),
                Some(d) => {
                    let idx = depth_index(n, d);
                    if !in_stack(n, idx) {
                        Err(VmError::AddressOutOfRange)
                    } else {
                        Ok(VmState { ip: p + 4, stack: st.push(st[idx]) })
                    }
                },
            }
        } else if op == STORE_AT_DEPTH {
            match immediate_at(code, p) {
                None => Err(VmError::MalformedProgram),
                Some(d) => {
                    if n < 1 {
                        Err(VmError::StackUnderflow)
                    } else {
                        let idx = depth_index(n - 1, d);
                        if !in_stack(n - 1, idx) {
                            Err(VmError::AddressOutOfRange)
                        } else {
                            Ok(VmState { ip: p + 4, stack: st.drop_last().update(idx, st[n - 1]) })
                        }
                    }
                },
            }
        } else if op == DROP_N {
            match immediate_at(code, p) {
                None => Err(VmError::MalformedProgram),
                Some(k) => {
                    if k < 0 {
                        Err(VmError::MalformedProgram)
                    } else if k > n {
                        Err(VmError::StackUnderflow)
                    } else {
                        Ok(VmState { ip: p + 4, stack: st.subrange(0, n - k) })
                    }
                },
            }
        } else if is_binary_op(op) {
            if n < 2 {
                Err(VmError::StackUnderflow)
            } else {
                match binary_result(op, st[n - 1], st[n - 2]) {
                    Err(e) => Err(e),
                    Ok(v) => Ok(VmState { ip: p, stack: st.subrange(0, n - 2).push(v) }),
                }
            }
        } else {
            Err(VmError::UnknownOpcode)
        }
    }
}

/// The outcome of executing up to `fuel` instructions from `s`: the state
/// reached, or the first error met.
pub open spec fn run_n(code: Seq<u8>, s: VmState, fuel: nat) -> Result<VmState, VmError>
    decreases fuel,
{
    if fuel == 0 {
        Ok(s)
    } else {
        match step_spec(code, s) {
            Ok(t) => run_n(code, t, (fuel - 1) as nat),
            Err(e) => Err(e),
        }
    }
}

/// A run that has stopped for good: by an error, or by halting.
pub open spec fn finished(code: Seq<u8>, r: Result<VmState, VmError>) -> bool {
    match r {
        Ok(s) => halted(code, s),
        Err(_) => true,
    }
}

pub open spec fn initial_state() -> VmState {
    VmState { ip: 0, stack: Seq::empty() }
}

} // verus!
