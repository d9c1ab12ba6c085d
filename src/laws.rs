use vstd::prelude::*;

use crate::semantics::{
    be_i32, finished, halted, immediate_at, initial_state, run_n, step_spec, VmState, HALT,
    LOAD_AT_DEPTH, PUSH_CONST,
};

verus! {

/// One more unit of fuel runs one more instruction from wherever the run
/// had got to.
pub proof fn lemma_run_n_extend(code: Seq<u8>, s: VmState, fuel: nat)
    ensures
        run_n(code, s, fuel + 1) == match run_n(code, s, fuel) {
            Ok(t) => step_spec(code, t),
            Err(e) => Err(e),
        },
    decreases fuel,
{
    if fuel > 0 {
        match step_spec(code, s) {
            Ok(t) => lemma_run_n_extend(code, t, (fuel - 1) as nat),
            Err(_) => {},
        }
    } else {
        reveal_with_fuel(run_n, 2);
    }
}

/// Once a run has halted or failed, more fuel changes nothing.
pub proof fn lemma_finished_is_final(code: Seq<u8>, s: VmState, fuel: nat, more: nat)
    requires
        finished(code, run_n(code, s, fuel)),
    ensures
        run_n(code, s, fuel + more) == run_n(code, s, fuel),
    decreases more,
{
    if more > 0 {
        lemma_finished_is_final(code, s, fuel, (more - 1) as nat);
        lemma_run_n_extend(code, s, (fuel + (more - 1)) as nat);
        assert(fuel + more == (fuel + (more - 1)) + 1);
    }
}

/// Executing a program is a function of its bytes: two runs from the same
/// state that have both come to an end (halted, or stopped on an error)
/// end in the same state, or on the same error.
pub proof fn lemma_run_deterministic(code: Seq<u8>, s: VmState, fuel1: nat, fuel2: nat)
    requires
        finished(code, run_n(code, s, fuel1)),
        finished(code, run_n(code, s, fuel2)),
    ensures
        run_n(code, s, fuel1) == run_n(code, s, fuel2),
{
    if fuel1 <= fuel2 {
        lemma_finished_is_final(code, s, fuel1, (fuel2 - fuel1) as nat);
    } else {
        lemma_finished_is_final(code, s, fuel2, (fuel1 - fuel2) as nat);
    }
}

/// The four big-endian two's-complement bytes of `v`.
pub open spec fn i32_be_bytes(v: i32) -> Seq<u8> {
    let u: int = if v < 0 {
        v + 0x1_0000_0000
    } else {
        v as int
    };
    seq![
        (u / 0x100 / 0x100 / 0x100) as u8,
        (u / 0x100 / 0x100 % 0x100) as u8,
        (u / 0x100 % 0x100) as u8,
        (u % 0x100) as u8,
    ]
}

/// Decoding the big-endian bytes of a value gives the value back.
pub proof fn lemma_be_bytes_decode(v: i32)
    ensures
        be_i32(i32_be_bytes(v)[0], i32_be_bytes(v)[1], i32_be_bytes(v)[2], i32_be_bytes(v)[3])
            == v,
{
}

/// The program `PUSH_CONST v; HALT`.
pub open spec fn push_halt_program(v: i32) -> Seq<u8> {
    seq![PUSH_CONST] + i32_be_bytes(v) + seq![HALT]
}

/// For every 32-bit value `v`, negative and extreme ones included, the
/// program `PUSH_CONST v; HALT` halts after two instructions with `v`
/// alone on the stack.
pub proof fn lemma_push_then_halt(v: i32)
    ensures
        run_n(push_halt_program(v), initial_state(), 2) == Ok::<VmState, crate::error::VmError>(
            VmState { ip: 6, stack: seq![v] },
        ),
        halted(push_halt_program(v), VmState { ip: 6, stack: seq![v] }),
{
    let code = push_halt_program(v);
    lemma_be_bytes_decode(v);
    assert(immediate_at(code, 1) == Some(v));
    let s1 = VmState { ip: 5, stack: seq![v] };
    assert(step_spec(code, initial_state()) == Ok::<VmState, crate::error::VmError>(s1));
    assert(step_spec(code, s1) == Ok::<VmState, crate::error::VmError>(
        VmState { ip: 6, stack: seq![v] },
    ));
    reveal_with_fuel(run_n, 3);
}

/// `LOAD_AT_DEPTH 0` on a non-empty stack pushes a copy of the top: the
/// stack grows by exactly one and the values below are untouched.
pub proof fn lemma_load_top_duplicates(code: Seq<u8>, s: VmState)
    requires
        0 <= s.ip < code.len(),
        code[s.ip] == LOAD_AT_DEPTH,
        immediate_at(code, s.ip + 1) == Some(0i32),
        s.stack.len() > 0,
    ensures
        step_spec(code, s) is Ok,
        step_spec(code, s)->Ok_0.ip == s.ip + 5,
        step_spec(code, s)->Ok_0.stack.len() == s.stack.len() + 1,
        step_spec(code, s)->Ok_0.stack.subrange(0, s.stack.len() as int) == s.stack,
        step_spec(code, s)->Ok_0.stack.last() == s.stack.last(),
{
    let t = step_spec(code, s)->Ok_0;
    assert(t.stack.subrange(0, s.stack.len() as int) =~= s.stack);
}

} // verus!
