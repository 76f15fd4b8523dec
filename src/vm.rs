use vstd::prelude::*;
use crate::instr::{Inst, Program, Value};
use crate::machine::{load, run, step, Machine, NUM_REGS, STACK_SIZE};

verus! {

/// Why a run stopped before reaching a halt.
#[derive(Debug, Clone, Copy, PartialEq, Eq, Structural)]
pub enum RuntimeError {
    InvalidPointer,
    InvalidRegister,
    StackOverflow,
    StackUnderflow,
    MalformedLabel,
    DivByZero,
}

/// An interpreter for one run of one valid program.
#[derive(Debug)]
pub struct VM {
    p: Program,
    regs: Vec<u32>,
    pc: usize,
    sp: usize,
    eq: bool,
    rem: u32,
    mem: Vec<u32>,
    hlt: bool,
}

impl View for VM {
    type V = Machine;

    closed spec fn view(&self) -> Machine {
        Machine {
            regs: self.regs@,
            pc: self.pc,
            sp: self.sp,
            eq: self.eq,
            rem: self.rem,
            mem: self.mem@,
            hlt: self.hlt,
        }
    }
}

impl VM {
    /// The program being run.
    pub closed spec fn program(&self) -> Program {
        self.p
    }

    /// The program is valid, its addresses fit in a word, and the state has
    /// the machine's shape.
    pub closed spec fn wf(&self) -> bool {
        &&& self.p.is_valid()
        &&& self.p.code@.len() <= u32::MAX
        &&& self@.wf()
    }

    pub fn new(p: Program) -> (r: VM)
        requires
            p.is_valid(),
            p.code@.len() <= u32::MAX,
        ensures
            r.wf(),
            r.program() == p,
            r@ == Machine::initial(),
    {
        let r = VM {
            p,
            regs: vec![0u32; NUM_REGS],
            pc: 0,
            sp: 0,
            eq: false,
            rem: 0,
            mem: vec![0u32; STACK_SIZE],
            hlt: false,
        };
        assert(r@.regs =~= Machine::initial().regs);
        assert(r@.mem =~= Machine::initial().mem);
        r
    }

    fn loadval(&self, v: &Value) -> (r: u32)
        requires
            self.wf(),
            v.is_valid(),
        ensures
            r == load(self@, *v),
    {
        match v {
            Value::Imm(i) => *i,
            Value::Reg(r) => self.regs[*r],
        }
    }

    fn opterr<T>(&self, v: Option<T>, e: RuntimeError) -> (r: Result<T, (RuntimeError, usize)>)
        ensures
            r == match v {
                Some(x) => Ok(x),
                None => Err((e, self.pc)),
            },
    {
        match v {
            Some(v) => Ok(v),
            None => Err((e, self.pc)),
        }
    }

    fn push(&mut self, w: u32) -> (r: Result<(), (RuntimeError, usize)>)
        requires
            old(self).wf(),
        ensures
            final(self).wf(),
            final(self).program() == old(self).program(),
            old(self)@.sp < STACK_SIZE ==> r is Ok && final(self)@ == (Machine {
                sp: (old(self)@.sp + 1) as usize,
                mem: old(self)@.mem.update(old(self)@.sp as int, w),
                ..old(self)@
            }),
            old(self)@.sp >= STACK_SIZE ==> r == Err::<(), _>(
                (RuntimeError::StackOverflow, old(self)@.pc),
            ) && final(self)@ == old(self)@,
    {
        if self.sp < self.mem.len() {
            self.mem.set(self.sp, w);
            self.sp = self.sp + 1;
            Ok(())
        } else {
            Err((RuntimeError::StackOverflow, self.pc))
        }
    }

    fn pop(&mut self) -> (r: Result<u32, (RuntimeError, usize)>)
        requires
            old(self).wf(),
        ensures
            final(self).wf(),
            final(self).program() == old(self).program(),
            old(self)@.sp > 0 ==> r == Ok::<u32, (RuntimeError, usize)>(
                old(self)@.mem[old(self)@.sp - 1],
            ) && final(self)@ == (Machine { sp: (old(self)@.sp - 1) as usize, ..old(self)@ }),
            old(self)@.sp == 0 ==> r == Err::<u32, _>((RuntimeError::StackUnderflow, old(self)@.pc))
                && final(self)@ == old(self)@,
    {
        if self.sp == 0 {
            Err((RuntimeError::StackUnderflow, self.pc))
        } else {
            self.sp = self.sp - 1;
            Ok(self.mem[self.sp])
        }
    }

    /// Sets register `u` to `w` and moves to the next instruction.
    fn write_next(&mut self, u: usize, w: u32)
        requires
            old(self).wf(),
            u < NUM_REGS,
            old(self).pc < old(self).p.code@.len(),
        ensures
            final(self).wf(),
            final(self).program() == old(self).program(),
            final(self)@ == crate::machine::write_next(old(self)@, u, w),
    {
        self.regs.set(u, w);
        self.pc = self.pc + 1;
    }
    /// Executes the instruction at the program counter. A `DisplayNumber`
    /// hands back the number it displays; an error comes with the address of
    /// the instruction that raised it, and then leaves the state as it was.
    pub fn execute(&mut self) -> (r: Result<Option<u32>, (RuntimeError, usize)>)
        requires
            old(self).wf(),
        ensures
            final(self).wf(),
            final(self).program() == old(self).program(),
            match step(old(self).program().code@, old(self).program().labels@, old(self)@) {
                Ok((m, o)) => r == Ok::<Option<u32>, (RuntimeError, usize)>(o) && final(self)@ == m,
                Err(e) => r == Err::<Option<u32>, _>((e, old(self)@.pc)) && final(self)@ == old(
                    self,
                )@,
            },
    {
        if self.pc >= self.p.code.len() {
            return Err((RuntimeError::InvalidPointer, self.pc));
        }
        assert(self.p.code@[self.pc as int].is_valid(self.p.labels@));
        match &self.p.code[self.pc] {
            Inst::ADD(u, v) => {
                let (u, v) = (*u, *v);
                let w = self.regs[u].wrapping_add(self.loadval(&v));
                self.write_next(u, w);
            },
            Inst::SUB(u, v) => {
                let (u, v) = (*u, *v);
                let w = self.regs[u].wrapping_sub(self.loadval(&v));
                self.write_next(u, w);
            },
            Inst::MUL(u, v) => {
                let (u, v) = (*u, *v);
                let w = self.regs[u].wrapping_mul(self.loadval(&v));
                self.write_next(u, w);
            },
            Inst::DIV(u, v) => {
                let (u, v) = (*u, *v);
                let t = self.regs[u];
                let denom = self.loadval(&v);
                if denom == 0 {
                    return Err((RuntimeError::DivByZero, self.pc));
                }
                self.write_next(u, t / denom);
                self.rem = t % denom;
            },
            Inst::AND(u, v) => {
                let (u, v) = (*u, *v);
                let w = self.regs[u] & self.loadval(&v);
                self.write_next(u, w);
            },
            Inst::OR(u, v) => {
                let (u, v) = (*u, *v);
                let w = self.regs[u] | self.loadval(&v);
                self.write_next(u, w);
            },
            Inst::XOR(u, v) => {
                let (u, v) = (*u, *v);
                let w = self.regs[u] ^ self.loadval(&v);
                self.write_next(u, w);
            },
            Inst::NOT(u) => {
                let u = *u;
                let w = !self.regs[u];
                self.write_next(u, w);
            },
            Inst::MOV(u, v) => {
                let (u, v) = (*u, *v);
                let w = self.loadval(&v);
                self.write_next(u, w);
            },
            Inst::RSFT(u, v) => {
                let (u, v) = (*u, *v);
                let w = self.regs[u].wrapping_shr(self.loadval(&v));
                self.write_next(u, w);
            },
            Inst::LSFT(u, v) => {
                let (u, v) = (*u, *v);
                let w = self.regs[u].wrapping_shl(self.loadval(&v));
                self.write_next(u, w);
            },
            Inst::CALL(lbl) => {
                let dest = self.opterr(self.p.labels.get(lbl), RuntimeError::MalformedLabel)?;
                let orig = self.pc as u32 + 1;
                self.push(orig)?;
                self.pc = dest;
            },
            Inst::RET => {
                let retaddr = self.pop()?;
                self.pc = retaddr as usize;
            },
            Inst::EQ(a, b) => {
                let (a, b) = (*a, *b);
                let a = self.loadval(&a);
                let b = self.loadval(&b);
                self.eq = a == b;
                self.pc = self.pc + 1;
            },
            Inst::LBL(_) => {
                self.pc = self.pc + 1;
            },
            Inst::JMP(l) => {
                let dest = self.opterr(self.p.labels.get(l), RuntimeError::MalformedLabel)?;
                self.pc = dest;
            },
            Inst::TJMP(l) => {
                if self.eq {
                    let dest = self.opterr(self.p.labels.get(l), RuntimeError::MalformedLabel)?;
                    self.pc = dest;
                } else {
                    self.pc = self.pc + 1;
                }
            },
            Inst::FJMP(l) => {
                if !self.eq {
                    let dest = self.opterr(self.p.labels.get(l), RuntimeError::MalformedLabel)?;
                    self.pc = dest;
                } else {
                    self.pc = self.pc + 1;
                }
            },
            Inst::PUSH(v) => {
                let v = *v;
                let w = self.loadval(&v);
                self.push(w)?;
                self.pc = self.pc + 1;
            },
            Inst::POP(r) => {
                let r = *r;
                let w = self.pop()?;
                self.write_next(r, w);
            },
            Inst::HLT => {
                self.hlt = true;
            },
            Inst::DISPNUM(r) => {
                let v = self.regs[*r];
                self.pc = self.pc + 1;
                return Ok(Some(v));
            },
        }
        Ok(None)
    }
    /// Runs until a halt, an error, or `fuel` executed instructions, whichever
    /// comes first, appending each displayed number to `out`. Returns
    /// `Ok(true)` once halted and `Ok(false)` when the budget ran out first;
    /// a later call resumes where this one stopped.
    pub fn run_program(&mut self, fuel: usize, out: &mut Vec<u32>) -> (r: Result<
        bool,
        (RuntimeError, usize),
    >)
        requires
            old(self).wf(),
        ensures
            final(self).wf(),
            final(self).program() == old(self).program(),
            ({
                let t = run(
                    old(self).program().code@,
                    old(self).program().labels@,
                    old(self)@,
                    fuel as nat,
                );
                &&& r == t.0
                &&& final(self)@ == t.1
                &&& final(out)@ == old(out)@ + t.2
            }),
    {
        let ghost code = self.p.code@;
        let ghost labels = self.p.labels@;
        let ghost total = run(code, labels, self@, fuel as nat);
        let ghost out0 = out@;
        let ghost prog0 = self.program();
        let mut k: usize = 0;
        while !self.hlt && k < fuel
            invariant
                self.wf(),
                self.program() == prog0,
                prog0 == old(self).program(),
                out0 == old(out)@,
                total == run(code, labels, old(self)@, fuel as nat),
                code == prog0.code@,
                labels == prog0.labels@,
                k <= fuel,
                run(code, labels, self@, (fuel - k) as nat).0 == total.0,
                run(code, labels, self@, (fuel - k) as nat).1 == total.1,
                out@ + run(code, labels, self@, (fuel - k) as nat).2 == out0 + total.2,
            decreases fuel - k,
        {
            let ghost before = out@;
            let ghost s = self@;
            match self.execute() {
                Ok(o) => {
                    match o {
                        Some(n) => out.push(n),
                        None => {},
                    }
                    proof {
                        let rest = run(code, labels, self@, (fuel - k - 1) as nat);
                        assert(out@ == before + crate::machine::shown(o));
                        assert(out@ + rest.2 =~= before + (crate::machine::shown(o) + rest.2));
                    }
                },
                Err(e) => {
                    assert(out@ + Seq::<u32>::empty() =~= out@);
                    return Err(e);
                },
            }
            k = k + 1;
        }
        assert(out@ + Seq::<u32>::empty() =~= out@);
        Ok(self.hlt)
    }
    /// The contents of register `r`, if the machine has that register.
    pub fn register(&self, r: usize) -> (v: Option<u32>)
        requires
            self.wf(),
        ensures
            v == (if r < NUM_REGS {
                Some(self@.regs[r as int])
            } else {
                None::<u32>
            }),
    {
        if r < self.regs.len() {
            Some(self.regs[r])
        } else {
            None
        }
    }

    /// The address of the next instruction.
    pub fn pc(&self) -> (r: usize)
        ensures
            r == self@.pc,
    {
        self.pc
    }

    /// The number of words on the stack.
    pub fn stack_len(&self) -> (r: usize)
        ensures
            r == self@.sp,
    {
        self.sp
    }

    /// The equality flag.
    pub fn eq_flag(&self) -> (r: bool)
        ensures
            r == self@.eq,
    {
        self.eq
    }

    /// The remainder of the last division.
    pub fn remainder(&self) -> (r: u32)
        ensures
            r == self@.rem,
    {
        self.rem
    }

    /// Whether a `HLT` has been executed.
    pub fn halted(&self) -> (r: bool)
        ensures
            r == self@.hlt,
    {
        self.hlt
    }
}

} // verus!
