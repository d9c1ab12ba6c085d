use vstd::prelude::*;

use crate::error::VmError;
use crate::laws::lemma_run_n_extend;
use crate::semantics::{
    abs, binary_result, div_i32, halted, immediate_at, initial_state, is_binary_op, rem_i32,
    run_n, step_spec, VmState, ADD, DIV, DROP_N, EQ, GE, GT, HALT, JUMP,
    JUMP_IF_ZERO, LE, LOAD_AT_DEPTH, LT, MOD, MUL, PUSH_CONST, STORE_AT_DEPTH, SUB,
};

verus! {

/// A stack machine over one fixed program of bytes.
pub struct VM {
    ip: usize,
    code: Vec<u8>,
    stack: Vec<i32>,
}

impl VM {
    /// The program, which never changes.
    pub closed spec fn code(&self) -> Seq<u8> {
        self.code@
    }

    /// The instruction pointer and the operand stack.
    pub closed spec fn state(&self) -> VmState {
        VmState { ip: self.ip as int, stack: self.stack@ }
    }

    pub fn new(code: Vec<u8>) -> (vm: VM)
        ensures
            vm.code() == code@,
            vm.state() == initial_state(),
    {
        VM { ip: 0, code, stack: Vec::new() }
    }

    /// Executes instructions until the machine halts or an instruction
    /// fails, giving up only after `u64::MAX` instructions. The final state
    /// is the one that many instructions lead to; on an error it is the
    /// state in which the failing instruction was met.
    pub fn run(&mut self) -> (r: Result<(), VmError>)
        ensures
            final(self).code() == old(self).code(),
            exists|fuel: nat|
                {
                    &&& #[trigger] run_n(old(self).code(), old(self).state(), fuel) == Ok::<
                        VmState,
                        VmError,
                    >(final(self).state())
                    &&& match r {
                        Ok(()) => halted(final(self).code(), final(self).state()) || fuel
                            == u64::MAX,
                        Err(e) => step_spec(final(self).code(), final(self).state()) == Err::<
                            VmState,
                            VmError,
                        >(e) && run_n(old(self).code(), old(self).state(), fuel + 1) == Err::<
                            VmState,
                            VmError,
                        >(e),
                    }
                },
    {
        let ghost code = self.code@;
        let ghost start = self.state();
        let mut count: u64 = 0;
        while self.ip < self.code.len() && count < u64::MAX
            invariant
                self.code@ == code,
                code == old(self).code(),
                start == old(self).state(),
                run_n(code, start, count as nat) == Ok::<VmState, VmError>(self.state()),
            decreases u64::MAX - count,
        {
            proof {
                lemma_run_n_extend(code, start, count as nat);
            }
            match self.step() {
                Ok(()) => {},
                Err(e) => {
                    return Err(e);
                },
            }
            count = count + 1;
        }
        Ok(())
    }

    /// Executes the instruction at the instruction pointer, or does nothing
    /// once the machine has halted. On an error the machine is left as it
    /// was before the instruction.
    pub fn step(&mut self) -> (r: Result<(), VmError>)
        ensures
            final(self).code() == old(self).code(),
            match step_spec(old(self).code(), old(self).state()) {
                Ok(s) => r == Ok::<(), VmError>(()) && final(self).state() == s,
                Err(e) => r == Err::<(), VmError>(e) && final(self).state() == old(self).state(),
            },
    {
        let len: usize = self.code.len();
        if self.ip >= len {
            return Ok(());
        }
        let op: u8 = self.code[self.ip];
        let p: usize = self.ip + 1;
        let n: usize = self.stack.len();
        if op == HALT {
            self.ip = len;
            Ok(())
        } else if op == JUMP {
            if n < 1 {
                return Err(VmError::StackUnderflow);
            }
            let target: i32 = self.stack[n - 1];
            self.stack.truncate(n - 1);
            self.ip = target as usize;
            Ok(())
        } else if op == JUMP_IF_ZERO {
            if n < 2 {
                return Err(VmError::StackUnderflow);
            }
            let target: i32 = self.stack[n - 1];
            let cond: i32 = self.stack[n - 2];
            self.stack.truncate(n - 2);
            self.ip = if cond == 0 {
                target as usize
            } else {
                p
            };
            Ok(())
        } else if op == PUSH_CONST {
            if len - p < 4 {
                return Err(VmError::MalformedProgram);
            }
            let v: i32 = self.get_i32(p);
            self.stack.push(v);
            self.ip = p + 4;
            Ok(())
        } else if op == LOAD_AT_DEPTH {
            if len - p < 4 {
                return Err(VmError::MalformedProgram);
            }
            let d: i32 = self.get_i32(p);
            if d < 0 || d as usize >= n {
                return Err(VmError::AddressOutOfRange);
            }
            let v: i32 = self.stack[n - 1 - d as usize];
            self.stack.push(v);
            self.ip = p + 4;
            Ok(())
        } else if op == STORE_AT_DEPTH {
            if len - p < 4 {
                return Err(VmError::MalformedProgram);
            }
            let d: i32 = self.get_i32(p);
            if n < 1 {
                return Err(VmError::StackUnderflow);
            }
            let m: usize = n - 1;
            if d < 0 || d as usize >= m {
                return Err(VmError::AddressOutOfRange);
            }
            let v: i32 = self.stack[m];
            self.stack.truncate(m);
            self.stack[m - 1 - d as usize] = v;
            self.ip = p + 4;
            Ok(())
        } else if op == DROP_N {
            if len - p < 4 {
                return Err(VmError::MalformedProgram);
            }
            let k: i32 = self.get_i32(p);
            if k < 0 {
                return Err(VmError::MalformedProgram);
            }
            if k as usize > n {
                return Err(VmError::StackUnderflow);
            }
            self.stack.truncate(n - k as usize);
            self.ip = p + 4;
            Ok(())
        } else if (ADD <= op && op <= MOD) || (EQ <= op && op <= LE) {
            if n < 2 {
                return Err(VmError::StackUnderflow);
            }
            let a: i32 = self.stack[n - 1];
            let b: i32 = self.stack[n - 2];
            match binary_op(op, a, b) {
                Err(e) => Err(e),
                Ok(v) => {
                    self.stack.truncate(n - 2);
                    self.stack.push(v);
                    self.ip = p;
                    Ok(())
                },
            }
        } else {
            Err(VmError::UnknownOpcode)
        }
    }

    /// The value on top of the stack.
    pub fn get_result(&self) -> (r: Result<i32, VmError>)
        ensures
            self.state().stack.len() > 0 ==> r == Ok::<i32, VmError>(self.state().stack.last()),
            self.state().stack.len() == 0 ==> r == Err::<i32, VmError>(VmError::EmptyResult),
    {
        let n: usize = self.stack.len();
        if n == 0 {
            Err(VmError::EmptyResult)
        } else {
            Ok(self.stack[n - 1])
        }
    }

    /// The instruction pointer.
    pub fn ip(&self) -> (r: usize)
        ensures
            r == self.state().ip,
    {
        self.ip
    }

    /// The operand stack, bottom first.
    pub fn stack(&self) -> (r: &[i32])
        ensures
            r@ == self.state().stack,
    {
        self.stack.as_slice()
    }

    /// Whether execution has ended.
    pub fn is_halted(&self) -> (r: bool)
        ensures
            r == halted(self.code(), self.state()),
    {
        self.ip >= self.code.len()
    }

    /// Reads the big-endian immediate operand that starts at `at`.
    fn get_i32(&self, at: usize) -> (r: i32)
        requires
            at + 4 <= self.code@.len(),
        ensures
            immediate_at(self.code@, at as int) == Some(r),
    {
        let _len: usize = self.code.len();
        let b0: u32 = self.code[at] as u32;
        let b1: u32 = self.code[at + 1] as u32;
        let b2: u32 = self.code[at + 2] as u32;
        let b3: u32 = self.code[at + 3] as u32;
        let u: u32 = b0 * 0x100_0000 + b1 * 0x1_0000 + b2 * 0x100 + b3;
        let v: i64 = if u >= 0x8000_0000 {
            u as i64 - 0x1_0000_0000
        } else {
            u as i64
        };
        v as i32
    }
}

proof fn lemma_trunc_div_i32(a: i32, b: i32)
    requires
        b != 0,
    ensures
        a.checked_div(b) == (if a == i32::MIN && b == -1 {
            None
        } else {
            Some(div_i32(a, b))
        }),
{
    let x = a as int;
    let d = b as int;
    if a == i32::MIN && b == -1 {
        assert(x * -1 == 0x8000_0000);
        assert(d * -1 == 1);
        assert(0x8000_0000int / 1int == 0x8000_0000);
    } else {
        assert(abs(x) / abs(d) <= abs(x)) by (nonlinear_arith)
            requires
                abs(d) >= 1,
                abs(x) >= 0,
        ;
        assert(abs(x) / abs(d) >= 0) by (nonlinear_arith)
            requires
                abs(d) >= 1,
                abs(x) >= 0,
        ;
        if x < 0 && abs(x) / abs(d) == 0x8000_0000 {
            assert(abs(d) == 1) by (nonlinear_arith)
                requires
                    abs(d) >= 1,
                    abs(x) <= 0x8000_0000,
                    abs(x) / abs(d) == 0x8000_0000,
            ;
        }
    }
}

proof fn lemma_trunc_rem_i32(a: i32, b: i32)
    requires
        b != 0,
    ensures
        a.checked_rem(b) == (if a == i32::MIN && b == -1 {
            None
        } else {
            Some(rem_i32(a, b))
        }),
        a == i32::MIN && b == -1 ==> rem_i32(a, b) == 0,
{
    let x = a as int;
    let d = b as int;
    assert(0 <= abs(x) % abs(d) < abs(d)) by (nonlinear_arith)
        requires
            abs(d) >= 1,
    ;
    if d == -1 {
        assert(abs(x) % 1 == 0);
    }
    if x == 0 {
        assert(0int % abs(d) == 0) by (nonlinear_arith)
            requires
                abs(d) >= 1,
        ;
    } else if x < 0 && d < 0 {
        assert(abs(x) == x * -1 && abs(d) == d * -1);
    } else if x < 0 {
        assert(abs(x) == x * -1 && abs(d) == d);
    } else if d < 0 {
        assert(abs(x) == x && abs(d) == d * -1);
    } else {
        assert(abs(x) == x && abs(d) == d);
    }
}

/// Applies a binary instruction to `a`, the first value popped, and `b`,
/// the second.
pub fn binary_op(op: u8, a: i32, b: i32) -> (r: Result<i32, VmError>)
    requires
        is_binary_op(op),
    ensures
        r == binary_result(op, a, b),
{
    if op == ADD {
        Ok(a.wrapping_add(b))
    } else if op == SUB {
        Ok(a.wrapping_sub(b))
    } else if op == MUL {
        Ok(a.wrapping_mul(b))
    } else if op == DIV {
        if b == 0 {
            Err(VmError::DivideByZero)
        } else {
            let r = a.checked_div(b);
            proof {
                lemma_trunc_div_i32(a, b);
            }
            match r {
                Some(q) => Ok(q),
                None => Ok(i32::MIN),
            }
        }
    } else if op == MOD {
        if b == 0 {
            Err(VmError::DivideByZero)
        } else {
            let r = a.checked_rem(b);
            proof {
                lemma_trunc_rem_i32(a, b);
            }
            match r {
                Some(q) => Ok(q),
                None => Ok(0),
            }
        }
    } else if op == EQ {
        Ok(if a == b { 1 } else { 0 })
    } else if op == GT {
        Ok(if a > b { 1 } else { 0 })
    } else if op == LT {
        Ok(if a < b { 1 } else { 0 })
    } else if op == GE {
        Ok(if a >= b { 1 } else { 0 })
    } else {
        Ok(if a <= b { 1 } else { 0 })
    }
}

} // verus!
