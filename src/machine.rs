use vstd::prelude::*;
use vstd::wrapping::u32_specs;
use crate::instr::{Inst, Value};
use crate::vm::RuntimeError;

verus! {

/// Number of register slots. Instructions may name registers `0..=MAX_REG`,
/// so the machine holds `MAX_REG + 1` of them and every index that passes
/// validation has a slot.
pub const NUM_REGS: usize = 5;

/// Number of words in the memory that holds the shared stack.
pub const STACK_SIZE: usize = 100;

/// The machine's state as plain values.
pub struct Machine {
    pub regs: Seq<u32>,
    pub pc: usize,
    pub sp: usize,
    pub eq: bool,
    pub rem: u32,
    pub mem: Seq<u32>,
    pub hlt: bool,
}

impl Machine {
    /// All registers and memory zero, at address 0, not halted.
    pub open spec fn initial() -> Machine {
        Machine {
            regs: Seq::new(NUM_REGS as nat, |i: int| 0u32),
            pc: 0,
            sp: 0,
            eq: false,
            rem: 0,
            mem: Seq::new(STACK_SIZE as nat, |i: int| 0u32),
            hlt: false,
        }
    }

    pub open spec fn wf(&self) -> bool {
        &&& self.regs.len() == NUM_REGS
        &&& self.mem.len() == STACK_SIZE
        &&& self.sp <= STACK_SIZE
    }
}

/// What an operand denotes in state `s`.
pub open spec fn load(s: Machine, v: Value) -> u32 {
    match v {
        Value::Imm(i) => i,
        Value::Reg(r) => s.regs[r as int],
    }
}

/// `s` advanced to the next instruction, with register `r` set to `w`.
pub open spec fn write_next(s: Machine, r: usize, w: u32) -> Machine {
    Machine { regs: s.regs.update(r as int, w), pc: (s.pc + 1) as usize, ..s }
}

/// `s` advanced to the next instruction.
pub open spec fn next(s: Machine) -> Machine {
    Machine { pc: (s.pc + 1) as usize, ..s }
}

/// A jump to label `l`.
pub open spec fn jump(labels: Map<Seq<char>, usize>, s: Machine, l: Seq<char>) -> Result<
    (Machine, Option<u32>),
    RuntimeError,
> {
    if labels.contains_key(l) {
        Ok((Machine { pc: labels[l], ..s }, None))
    } else {
        Err(RuntimeError::MalformedLabel)
    }
}

/// One instruction executed from state `s`: the next state and the number it
/// displays, or the error it stops with (the state then stays as it was).
pub open spec fn step(code: Seq<Inst>, labels: Map<Seq<char>, usize>, s: Machine) -> Result<
    (Machine, Option<u32>),
    RuntimeError,
> {
    if s.pc >= code.len() {
        Err(RuntimeError::InvalidPointer)
    } else {
        match code[s.pc as int] {
            Inst::ADD(u, v) => Ok(
                (write_next(s, u, u32_specs::wrapping_add(s.regs[u as int], load(s, v))), None),
            ),
            Inst::SUB(u, v) => Ok(
                (write_next(s, u, u32_specs::wrapping_sub(s.regs[u as int], load(s, v))), None),
            ),
            Inst::MUL(u, v) => Ok(
                (write_next(s, u, u32_specs::wrapping_mul(s.regs[u as int], load(s, v))), None),
            ),
            Inst::DIV(u, v) => {
                let d = load(s, v);
                if d == 0 {
                    Err(RuntimeError::DivByZero)
                } else {
                    let t = s.regs[u as int];
                    Ok((Machine { rem: t % d, ..write_next(s, u, t / d) }, None))
                }
            },
            Inst::AND(u, v) => Ok((write_next(s, u, s.regs[u as int] & load(s, v)), None)),
            Inst::OR(u, v) => Ok((write_next(s, u, s.regs[u as int] | load(s, v)), None)),
            Inst::XOR(u, v) => Ok((write_next(s, u, s.regs[u as int] ^ load(s, v)), None)),
            Inst::NOT(u) => Ok((write_next(s, u, !s.regs[u as int]), None)),
            Inst::MOV(u, v) => Ok((write_next(s, u, load(s, v)), None)),
            Inst::RSFT(u, v) => Ok(
                (write_next(s, u, u32_specs::wrapping_shr(s.regs[u as int], load(s, v))), None),
            ),
            Inst::LSFT(u, v) => Ok(
                (write_next(s, u, u32_specs::wrapping_shl(s.regs[u as int], load(s, v))), None),
            ),
            Inst::CALL(l) => {
                if !labels.contains_key(l@) {
                    Err(RuntimeError::MalformedLabel)
                } else if s.sp >= STACK_SIZE {
                    Err(RuntimeError::StackOverflow)
                } else {
                    Ok(
                        (
                            Machine {
                                pc: labels[l@],
                                sp: (s.sp + 1) as usize,
                                mem: s.mem.update(s.sp as int, (s.pc + 1) as u32),
                                ..s
                            },
                            None,
                        ),
                    )
                }
            },
            Inst::RET => {
                if s.sp == 0 {
                    Err(RuntimeError::StackUnderflow)
                } else {
                    Ok(
                        (
                            Machine {
                                pc: s.mem[s.sp - 1] as usize,
                                sp: (s.sp - 1) as usize,
                                ..s
                            },
                            None,
                        ),
                    )
                }
            },
            Inst::EQ(a, b) => Ok((Machine { eq: load(s, a) == load(s, b), ..next(s) }, None)),
            Inst::LBL(_) => Ok((next(s), None)),
            Inst::JMP(l) => jump(labels, s, l@),
            Inst::TJMP(l) => if s.eq {
                jump(labels, s, l@)
            } else {
                Ok((next(s), None))
            },
            Inst::FJMP(l) => if !s.eq {
                jump(labels, s, l@)
            } else {
                Ok((next(s), None))
            },
            Inst::PUSH(v) => {
                if s.sp >= STACK_SIZE {
                    Err(RuntimeError::StackOverflow)
                } else {
                    Ok(
                        (
                            Machine {
                                sp: (s.sp + 1) as usize,
                                mem: s.mem.update(s.sp as int, load(s, v)),
                                ..next(s)
                            },
                            None,
                        ),
                    )
                }
            },
            Inst::POP(r) => {
                if s.sp == 0 {
                    Err(RuntimeError::StackUnderflow)
                } else {
                    Ok(
                        (
                            Machine {
                                sp: (s.sp - 1) as usize,
                                ..write_next(s, r, s.mem[s.sp - 1])
                            },
                            None,
                        ),
                    )
                }
            },
            Inst::HLT => Ok((Machine { hlt: true, ..s }, None)),
            Inst::DISPNUM(r) => Ok((next(s), Some(s.regs[r as int]))),
        }
    }
}

/// The output of one step, as a sequence of numbers.
pub open spec fn shown(o: Option<u32>) -> Seq<u32> {
    match o {
        Some(n) => seq![n],
        None => Seq::empty(),
    }
}

/// Running from `s` for at most `fuel` steps, stopping early at a halt or an
/// error: how the run ended (`Ok(true)` halted, `Ok(false)` out of fuel, or
/// the error with the address it came at), the final state, and the numbers
/// displayed on the way.
pub open spec fn run(code: Seq<Inst>, labels: Map<Seq<char>, usize>, s: Machine, fuel: nat) -> (
    Result<bool, (RuntimeError, usize)>,
    Machine,
    Seq<u32>,
)
    decreases fuel,
{
    if s.hlt {
        (Ok(true), s, Seq::empty())
    } else if fuel == 0 {
        (Ok(false), s, Seq::empty())
    } else {
        match step(code, labels, s) {
            Err(e) => (Err((e, s.pc)), s, Seq::empty()),
            Ok((s2, o)) => {
                let r = run(code, labels, s2, (fuel - 1) as nat);
                (r.0, r.1, shown(o) + r.2)
            },
        }
    }
}

/// Division by a zero divisor stops the run at the `DIV` with `DivByZero`,
/// the state (and so the destination register) left as it was; by a nonzero
/// divisor the destination becomes the quotient and the remainder word the
/// remainder.
pub proof fn law_div(code: Seq<Inst>, labels: Map<Seq<char>, usize>, s: Machine, fuel: nat)
    requires
        s.wf(),
        !s.hlt,
        fuel >= 1,
        s.pc < code.len() <= usize::MAX,
        code[s.pc as int] is DIV,
        code[s.pc as int]->DIV_0 < NUM_REGS,
    ensures
        ({
            let u = code[s.pc as int]->DIV_0 as int;
            let d = load(s, code[s.pc as int]->DIV_1);
            &&& d == 0 ==> step(code, labels, s) == Err::<(Machine, Option<u32>), _>(
                RuntimeError::DivByZero,
            )
            &&& d == 0 ==> run(code, labels, s, fuel) == (
                Err::<bool, _>((RuntimeError::DivByZero, s.pc)),
                s,
                Seq::<u32>::empty(),
            )
            &&& d != 0 ==> step(code, labels, s) is Ok
            &&& d != 0 ==> step(code, labels, s)->Ok_0.0.regs[u] == s.regs[u] / d
            &&& d != 0 ==> step(code, labels, s)->Ok_0.0.rem == s.regs[u] % d
            &&& d != 0 ==> step(code, labels, s)->Ok_0.0.pc == s.pc + 1
        }),
{
    let u = code[s.pc as int]->DIV_0;
    let d = load(s, code[s.pc as int]->DIV_1);
    if d != 0 {
        let t = s.regs[u as int];
        let m = Machine { rem: t % d, ..write_next(s, u, t / d) };
        assert(step(code, labels, s) == Ok::<(Machine, Option<u32>), RuntimeError>((m, None)));
        assert(m.regs[u as int] == t / d);
    }
}

/// A `CALL` followed, at any later state whose stack top is the one the call
/// left, by a `RET` resumes at the instruction right after the `CALL`, with
/// the stack as it was before the call.
pub proof fn law_call_return(
    code: Seq<Inst>,
    labels: Map<Seq<char>, usize>,
    s: Machine,
    t: Machine,
)
    requires
        code.len() <= u32::MAX,
        s.wf(),
        s.pc < code.len(),
        code[s.pc as int] is CALL,
        step(code, labels, s) is Ok,
        t.wf(),
        t.pc < code.len(),
        code[t.pc as int] is RET,
        t.sp == step(code, labels, s)->Ok_0.0.sp,
        t.mem[t.sp - 1] == step(code, labels, s)->Ok_0.0.mem[t.sp - 1],
    ensures
        step(code, labels, t) is Ok,
        step(code, labels, t)->Ok_0.0.pc == s.pc + 1,
        step(code, labels, t)->Ok_0.0.sp == s.sp,
{
}

/// A push succeeds and grows the stack by one word exactly while the stack
/// holds fewer than `STACK_SIZE` words, and fails with `StackOverflow` when
/// it is full; a pop fails with `StackUnderflow` exactly when it is empty.
pub proof fn law_stack_bounds(code: Seq<Inst>, labels: Map<Seq<char>, usize>, s: Machine)
    requires
        s.wf(),
        s.pc < code.len(),
    ensures
        code[s.pc as int] is PUSH && s.sp < STACK_SIZE ==> step(code, labels, s) is Ok
            && step(code, labels, s)->Ok_0.0.sp == s.sp + 1,
        code[s.pc as int] is PUSH && s.sp == STACK_SIZE ==> step(code, labels, s) == Err::<
            (Machine, Option<u32>),
            _,
        >(RuntimeError::StackOverflow),
        code[s.pc as int] is POP ==> (s.sp == 0 <==> step(code, labels, s) == Err::<
            (Machine, Option<u32>),
            _,
        >(RuntimeError::StackUnderflow)),
        code[s.pc as int] is POP && s.sp > 0 ==> step(code, labels, s)->Ok_0.0.sp == s.sp - 1,
{
}

/// From a stack holding `s.sp` words, a straight line of pushes fills it
/// after `STACK_SIZE - s.sp` of them, and the next push stops the run with
/// `StackOverflow` at its own address. From an empty stack that is the push
/// after `STACK_SIZE` successful ones.
pub proof fn law_push_until_overflow(
    code: Seq<Inst>,
    labels: Map<Seq<char>, usize>,
    s: Machine,
    n: nat,
)
    requires
        s.wf(),
        !s.hlt,
        s.sp + n == STACK_SIZE,
        s.pc + n < code.len() <= usize::MAX,
        forall|j: int| s.pc <= j <= s.pc + n ==> #[trigger] code[j] is PUSH,
    ensures
        run(code, labels, s, n + 1).0 == Err::<bool, _>(
            (RuntimeError::StackOverflow, (s.pc + n) as usize),
        ),
    decreases n,
{
    assert(code[s.pc as int] is PUSH);
    if n > 0 {
        let s2 = step(code, labels, s)->Ok_0.0;
        assert(s2.pc == s.pc + 1 && s2.sp == s.sp + 1 && !s2.hlt);
        assert(s2.wf());
        law_push_until_overflow(code, labels, s2, (n - 1) as nat);
    }
}

/// Whether no `EQ` is executed in a run from `s` of at most `fuel` steps.
pub open spec fn runs_without_eq(
    code: Seq<Inst>,
    labels: Map<Seq<char>, usize>,
    s: Machine,
    fuel: nat,
) -> bool
    decreases fuel,
{
    if s.hlt || fuel == 0 || s.pc >= code.len() {
        true
    } else {
        !(code[s.pc as int] is EQ) && match step(code, labels, s) {
            Ok((s2, _)) => runs_without_eq(code, labels, s2, (fuel - 1) as nat),
            Err(_) => true,
        }
    }
}

/// The equality flag changes only at an `EQ`: a run that executes none,
/// jumps included, ends with the flag it started with.
pub proof fn law_eq_flag_kept(
    code: Seq<Inst>,
    labels: Map<Seq<char>, usize>,
    s: Machine,
    fuel: nat,
)
    requires
        runs_without_eq(code, labels, s, fuel),
    ensures
        run(code, labels, s, fuel).1.eq == s.eq,
    decreases fuel,
{
    if !s.hlt && fuel > 0 && s.pc < code.len() {
        match step(code, labels, s) {
            Ok((s2, _)) => {
                assert(s2.eq == s.eq);
                law_eq_flag_kept(code, labels, s2, (fuel - 1) as nat);
            },
            Err(_) => {},
        }
    }
}

/// After a `HLT` nothing more is executed, whatever follows it: the run ends
/// halted at the `HLT` itself, with no further output.
pub proof fn law_halt_stops(code: Seq<Inst>, labels: Map<Seq<char>, usize>, s: Machine, fuel: nat)
    requires
        !s.hlt,
        fuel >= 1,
        s.pc < code.len(),
        code[s.pc as int] is HLT,
    ensures
        run(code, labels, s, fuel) == (
            Ok::<bool, (RuntimeError, usize)>(true),
            Machine { hlt: true, ..s },
            Seq::<u32>::empty(),
        ),
{
    let s2 = Machine { hlt: true, ..s };
    assert(step(code, labels, s) == Ok::<(Machine, Option<u32>), RuntimeError>((s2, None)));
    assert(run(code, labels, s2, (fuel - 1) as nat) == (
        Ok::<bool, (RuntimeError, usize)>(true),
        s2,
        Seq::<u32>::empty(),
    ));
    assert(shown(None) + Seq::<u32>::empty() =~= Seq::<u32>::empty());
}

} // verus!
