//! The virtual machine: a 256-byte flat memory, an 8-bit program counter and
//! an 8-bit accumulator, driven by a fetch-decode-execute loop over the byte
//! encoding of the instruction set in `instr`.
//!
//! The machine's behaviour is specified by `step_of`, the one-instruction
//! transition function, and `run_from`, its fuelled iteration. `Machine::run`
//! is proved to follow `run_from` exactly.

use vstd::prelude::*;
use crate::instr::{Opcode, byte_to_opcode, opcode_len};

verus! {

/// The size of the machine's memory in bytes; addresses wrap modulo this.
pub const MACHINE_MEMORY_SIZE: usize = 256;

/// Addition on 8-bit machine words: wraps modulo 256.
pub open spec fn wadd(a: u8, b: u8) -> u8 {
    if a + b < 256 {
        (a + b) as u8
    } else {
        (a + b - 256) as u8
    }
}

/// Subtraction on 8-bit machine words: wraps modulo 256.
pub open spec fn wsub(a: u8, b: u8) -> u8 {
    if a - b >= 0 {
        (a - b) as u8
    } else {
        (a - b + 256) as u8
    }
}

/// The machine's 256-byte memory.
#[derive(Debug)]
pub struct Memory(Vec<u8>);

impl View for Memory {
    type V = Seq<u8>;

    closed spec fn view(&self) -> Seq<u8> {
        self.0@
    }
}

impl Memory {
    /// The memory always holds exactly `MACHINE_MEMORY_SIZE` bytes.
    pub open spec fn wf(&self) -> bool {
        self@.len() == MACHINE_MEMORY_SIZE
    }

    /// Loads a program no longer than the memory into its low end; the rest
    /// of the memory is zero.
    pub fn from_program(program: &Vec<u8>) -> (m: Memory)
        requires
            program@.len() <= MACHINE_MEMORY_SIZE,
        ensures
            m.wf(),
            forall|i: int| 0 <= i < program@.len() ==> m@[i] == program@[i],
            forall|i: int| program@.len() <= i < MACHINE_MEMORY_SIZE ==> m@[i] == 0,
    {
        let mut out: Vec<u8> = Vec::new();
        let mut i: usize = 0;
        while i < program.len()
            invariant
                i <= program@.len() <= MACHINE_MEMORY_SIZE,
                out@ == program@.take(i as int),
            decreases program@.len() - i,
        {
            out.push(program[i]);
            i = i + 1;
            proof {
                assert(out@ =~= program@.take(i as int));
            }
        }
        proof {
            assert(out@ =~= program@);
        }
        while out.len() < MACHINE_MEMORY_SIZE
            invariant
                program@.len() <= out@.len() <= MACHINE_MEMORY_SIZE,
                out@.take(program@.len() as int) == program@,
                forall|j: int| program@.len() <= j < out@.len() ==> out@[j] == 0,
            decreases MACHINE_MEMORY_SIZE - out@.len(),
        {
            out.push(0);
            proof {
                assert(out@.take(program@.len() as int) =~= program@);
            }
        }
        let m = Memory(out);
        proof {
            assert forall|i: int| 0 <= i < program@.len() implies m@[i] == program@[i] by {
                assert(program@.take(program@.len() as int)[i] == program@[i]);
            }
        }
        m
    }

    /// Reads the byte at the given address.
    pub fn read(&self, addr: u8) -> (b: u8)
        requires
            self.wf(),
        ensures
            b == self@[addr as int],
    {
        self.0[addr as usize]
    }

    /// Writes the byte at the given address.
    pub fn write(&mut self, addr: u8, val: u8)
        requires
            old(self).wf(),
        ensures
            final(self).wf(),
            final(self)@ == old(self)@.update(addr as int, val),
    {
        self.0.set(addr as usize, val);
    }
}

/// The ghost image of the machine: program counter, accumulator, memory.
pub ghost struct VmState {
    pub pc: u8,
    pub acc: u8,
    pub mem: Seq<u8>,
}

/// The machine: a program counter, an accumulator, and a 256-byte memory.
#[derive(Debug)]
pub struct Machine {
    pub pc: u8,
    pub acc: u8,
    pub memory: Memory,
}

impl View for Machine {
    type V = VmState;

    open spec fn view(&self) -> VmState {
        VmState { pc: self.pc, acc: self.acc, mem: self.memory@ }
    }
}

impl Machine {
    pub open spec fn wf(&self) -> bool {
        self.memory.wf()
    }

    /// A fresh machine: the program in low memory, zero elsewhere, both
    /// registers zero.
    pub fn from_program(program: &Vec<u8>) -> (m: Machine)
        requires
            program@.len() <= MACHINE_MEMORY_SIZE,
        ensures
            m.wf(),
            m@.pc == 0,
            m@.acc == 0,
            forall|i: int| 0 <= i < program@.len() ==> m@.mem[i] == program@[i],
            forall|i: int| program@.len() <= i < MACHINE_MEMORY_SIZE ==> m@.mem[i] == 0,
    {
        Machine { pc: 0, acc: 0, memory: Memory::from_program(program) }
    }
}

/// The bytes a `print` instruction reads: `mem[src]` is the length, and the
/// content bytes follow it, all addresses wrapping modulo 256.
pub open spec fn print_bytes(s: VmState, src: u8) -> Seq<u8> {
    Seq::new(s.mem[src as int] as nat, |t: int| s.mem[wadd(src, (t + 1) as u8) as int])
}

/// The outcome of executing the single instruction at the program counter.
pub ghost enum Step {
    /// The machine continues in state `s`, possibly emitting one byte string.
    Next { s: VmState, out: Option<Seq<u8>> },
    /// A `stop` instruction: the run ends here.
    Stop,
    /// The byte at the program counter is not in the opcode table.
    Fault { opcode: u8, at: u8 },
}

/// The one-instruction transition function of the machine.
pub open spec fn step_of(s: VmState) -> Step
    recommends
        s.mem.len() == MACHINE_MEMORY_SIZE,
{
    let op = s.mem[s.pc as int];
    match byte_to_opcode(op) {
        None => Step::Fault { opcode: op, at: s.pc },
        Some(oc) => match oc {
            Opcode::Stop => Step::Stop,
            Opcode::Nop => Step::Next {
                s: VmState { pc: wadd(s.pc, 1), acc: s.acc, mem: s.mem },
                out: None,
            },
            Opcode::Ld => {
                let src = s.mem[wadd(s.pc, 1) as int];
                Step::Next {
                    s: VmState { pc: wadd(s.pc, 2), acc: s.mem[src as int], mem: s.mem },
                    out: None,
                }
            },
            Opcode::Ldi => Step::Next {
                s: VmState { pc: wadd(s.pc, 2), acc: s.mem[wadd(s.pc, 1) as int], mem: s.mem },
                out: None,
            },
            Opcode::St => {
                let dst = s.mem[wadd(s.pc, 1) as int];
                Step::Next {
                    s: VmState { pc: wadd(s.pc, 2), acc: s.acc, mem: s.mem.update(dst as int, s.acc) },
                    out: None,
                }
            },
            Opcode::Sti => {
                let val = s.mem[wadd(s.pc, 1) as int];
                let dst = s.mem[wadd(s.pc, 2) as int];
                Step::Next {
                    s: VmState { pc: wadd(s.pc, 3), acc: s.acc, mem: s.mem.update(dst as int, val) },
                    out: None,
                }
            },
            Opcode::Mov => {
                let src = s.mem[wadd(s.pc, 1) as int];
                let dst = s.mem[wadd(s.pc, 2) as int];
                Step::Next {
                    s: VmState {
                        pc: wadd(s.pc, 3),
                        acc: s.acc,
                        mem: s.mem.update(dst as int, s.mem[src as int]),
                    },
                    out: None,
                }
            },
            Opcode::Jmp => Step::Next {
                s: VmState { pc: s.mem[wadd(s.pc, 1) as int], acc: s.acc, mem: s.mem },
                out: None,
            },
            Opcode::Jz => Step::Next {
                s: VmState {
                    pc: if s.acc == 0 {
                        s.mem[wadd(s.pc, 1) as int]
                    } else {
                        wadd(s.pc, 2)
                    },
                    acc: s.acc,
                    mem: s.mem,
                },
                out: None,
            },
            Opcode::Add => {
                let src = s.mem[wadd(s.pc, 1) as int];
                Step::Next {
                    s: VmState {
                        pc: wadd(s.pc, 2),
                        acc: wadd(s.acc, s.mem[src as int]),
                        mem: s.mem,
                    },
                    out: None,
                }
            },
            Opcode::Addi => Step::Next {
                s: VmState {
                    pc: wadd(s.pc, 2),
                    acc: wadd(s.acc, s.mem[wadd(s.pc, 1) as int]),
                    mem: s.mem,
                },
                out: None,
            },
            Opcode::Sub => {
                let src = s.mem[wadd(s.pc, 1) as int];
                Step::Next {
                    s: VmState {
                        pc: wadd(s.pc, 2),
                        acc: wsub(s.acc, s.mem[src as int]),
                        mem: s.mem,
                    },
                    out: None,
                }
            },
            Opcode::Subi => Step::Next {
                s: VmState {
                    pc: wadd(s.pc, 2),
                    acc: wsub(s.acc, s.mem[wadd(s.pc, 1) as int]),
                    mem: s.mem,
                },
                out: None,
            },
            Opcode::Shr => Step::Next {
                s: VmState { pc: wadd(s.pc, 1), acc: s.acc >> 1u8, mem: s.mem },
                out: None,
            },
            Opcode::Shl => Step::Next {
                s: VmState { pc: wadd(s.pc, 1), acc: s.acc << 1u8, mem: s.mem },
                out: None,
            },
            Opcode::And => {
                let src = s.mem[wadd(s.pc, 1) as int];
                Step::Next {
                    s: VmState {
                        pc: wadd(s.pc, 2),
                        acc: s.acc & s.mem[src as int],
                        mem: s.mem,
                    },
                    out: None,
                }
            },
            Opcode::Andi => Step::Next {
                s: VmState {
                    pc: wadd(s.pc, 2),
                    acc: s.acc & s.mem[wadd(s.pc, 1) as int],
                    mem: s.mem,
                },
                out: None,
            },
            Opcode::Print => {
                let src = s.mem[wadd(s.pc, 1) as int];
                Step::Next {
                    s: VmState { pc: wadd(s.pc, 2), acc: s.acc, mem: s.mem },
                    out: Some(print_bytes(s, src)),
                }
            },
        },
    }
}

/// The result of running the machine for a bounded number of instructions.
#[verifier::ext_equal]
pub ghost enum RunOutcome {
    /// A `stop` instruction ended the run in state `s`, after emitting `outs`.
    Halted { s: VmState, outs: Seq<Seq<u8>> },
    /// An unknown opcode byte ended the run in state `s` (unchanged since the
    /// fault), after emitting `outs`.
    Faulted { s: VmState, outs: Seq<Seq<u8>>, opcode: u8, at: u8 },
    /// The fuel ran out in state `s`, after emitting `outs`; the machine
    /// would keep running.
    Running { s: VmState, outs: Seq<Seq<u8>> },
}

/// Prepends already-emitted byte strings to a run outcome.
pub open spec fn push_outs(pre: Seq<Seq<u8>>, r: RunOutcome) -> RunOutcome {
    match r {
        RunOutcome::Halted { s, outs } => RunOutcome::Halted { s, outs: pre + outs },
        RunOutcome::Faulted { s, outs, opcode, at } => RunOutcome::Faulted {
            s,
            outs: pre + outs,
            opcode,
            at,
        },
        RunOutcome::Running { s, outs } => RunOutcome::Running { s, outs: pre + outs },
    }
}

/// The byte strings one step emits: none, or exactly one.
pub open spec fn opt_out(o: Option<Seq<u8>>) -> Seq<Seq<u8>> {
    match o {
        Some(b) => seq![b],
        None => Seq::empty(),
    }
}

/// Runs the machine for at most `fuel` instructions from state `s`: the
/// reflexive-transitive iteration of `step_of`, collecting emitted output.
pub open spec fn run_from(s: VmState, fuel: nat) -> RunOutcome
    decreases fuel,
{
    match step_of(s) {
        Step::Stop => RunOutcome::Halted { s, outs: Seq::empty() },
        Step::Fault { opcode, at } => RunOutcome::Faulted { s, outs: Seq::empty(), opcode, at },
        Step::Next { s: s2, out } => if fuel == 0 {
            RunOutcome::Running { s, outs: Seq::empty() }
        } else {
            push_outs(opt_out(out), run_from(s2, (fuel - 1) as nat))
        },
    }
}

proof fn lemma_push_outs_empty(r: RunOutcome)
    ensures
        push_outs(Seq::empty(), r) == r,
{
    match r {
        RunOutcome::Halted { s, outs } => {
            assert(Seq::empty() + outs =~= outs);
        },
        RunOutcome::Faulted { s, outs, opcode, at } => {
            assert(Seq::empty() + outs =~= outs);
        },
        RunOutcome::Running { s, outs } => {
            assert(Seq::empty() + outs =~= outs);
        },
    }
}

proof fn lemma_push_outs_concat(a: Seq<Seq<u8>>, b: Seq<Seq<u8>>, r: RunOutcome)
    ensures
        push_outs(a, push_outs(b, r)) == push_outs(a + b, r),
{
    match r {
        RunOutcome::Halted { s, outs } => {
            assert(a + (b + outs) =~= (a + b) + outs);
        },
        RunOutcome::Faulted { s, outs, opcode, at } => {
            assert(a + (b + outs) =~= (a + b) + outs);
        },
        RunOutcome::Running { s, outs } => {
            assert(a + (b + outs) =~= (a + b) + outs);
        },
    }
}

/// Extends the run-loop bookkeeping by one executed instruction.
proof fn lemma_run_extend(
    s0: VmState,
    steps: nat,
    emitted: Seq<Seq<u8>>,
    pre: VmState,
    post: VmState,
    o: Option<Seq<u8>>,
)
    requires
        forall|fuel: nat| run_from(s0, fuel + steps) == push_outs(emitted, run_from(pre, fuel)),
        step_of(pre) == (Step::Next { s: post, out: o }),
    ensures
        forall|fuel: nat|
            run_from(s0, fuel + (steps + 1)) == push_outs(
                emitted + opt_out(o),
                run_from(post, fuel),
            ),
{
    assert forall|fuel: nat|
        run_from(s0, fuel + (steps + 1)) == push_outs(
            emitted + opt_out(o),
            run_from(post, fuel),
        ) by {
        let f1 = (fuel + 1) as nat;
        assert(run_from(s0, f1 + steps) == push_outs(emitted, run_from(pre, f1)));
        assert(run_from(pre, f1) == push_outs(opt_out(o), run_from(post, fuel)));
        lemma_push_outs_concat(emitted, opt_out(o), run_from(post, fuel));
        assert(fuel + (steps + 1) == f1 + steps);
    }
}

/// The machine consumes the opcode table exactly as the parser does: a
/// byte outside the table faults, `stop`'s byte stops, and every other
/// opcode's step advances the program counter by that opcode's length from
/// the table — except a jump, and a `jz` taken with the accumulator zero,
/// which set it to their target instead.
pub proof fn lemma_step_follows_opcode_table(s: VmState)
    ensures
        step_of(s) is Fault <==> byte_to_opcode(s.mem[s.pc as int]) is None,
        step_of(s) is Stop <==> byte_to_opcode(s.mem[s.pc as int]) == Some(Opcode::Stop),
        (match byte_to_opcode(s.mem[s.pc as int]) {
            Some(oc) => oc != Opcode::Stop && oc != Opcode::Jmp && !(oc == Opcode::Jz && s.acc
                == 0) ==> (step_of(s) matches Step::Next { s: s2, out } && s2.pc == wadd(
                s.pc,
                opcode_len(oc),
            )),
            None => true,
        }),
{
}

/// The machine is deterministic: any two fuel values that let the run finish
/// (by `stop` or by a fault) give the same final state, the same sequence of
/// emitted outputs, and the same outcome.
pub proof fn lemma_run_deterministic(s: VmState, n1: nat, n2: nat)
    requires
        !(run_from(s, n1) is Running),
        !(run_from(s, n2) is Running),
    ensures
        run_from(s, n1) == run_from(s, n2),
    decreases n1,
{
    match step_of(s) {
        Step::Stop => {},
        Step::Fault { opcode, at } => {},
        Step::Next { s: s2, out } => {
            assert(n1 != 0 && n2 != 0);
            lemma_run_deterministic(s2, (n1 - 1) as nat, (n2 - 1) as nat);
        },
    }
}

/// A name for what `String::from_utf8_lossy` returns on the given bytes.
pub uninterp spec fn utf8_lossy_of(bytes: Seq<u8>) -> Seq<char>;

/// Relies on String::from_utf8_lossy: the decoding is a pure function of the
/// bytes alone; ASCII bytes decode to themselves (invalid sequences become
/// replacement characters).
#[verifier::external_body]
fn utf8_lossy(bytes: &Vec<u8>) -> (s: String)
    ensures
        s@ == utf8_lossy_of(bytes@),
        (forall|i: int| 0 <= i < bytes@.len() ==> bytes@[i] < 0x80) ==> s@ == bytes@.map_values(
            |b: u8| b as char,
        ),
{
    String::from_utf8_lossy(bytes).into_owned()
}

/// The text the host sees for a sequence of emitted byte strings: each one
/// decoded as lossy UTF-8.
pub open spec fn decoded_outs(bs: Seq<Seq<u8>>) -> Seq<Seq<char>> {
    bs.map_values(|b: Seq<u8>| utf8_lossy_of(b))
}

/// Why `run` returned.
#[derive(Debug, Clone, Copy, PartialEq, Eq, Structural)]
pub struct VmFault {
    /// The unknown opcode byte.
    pub opcode: u8,
    /// The program counter it was fetched from.
    pub at: u8,
}

/// Why `run` returned.
#[derive(Debug, Clone, Copy, PartialEq, Eq, Structural)]
pub enum RunStatus {
    /// A `stop` instruction was executed.
    Stopped,
    /// An unknown opcode byte was fetched: a fatal, unrecoverable condition.
    Faulted(VmFault),
    /// The step budget was exhausted while the machine could still run.
    OutOfSteps,
}

/// How a finished exec run relates to the spec-level outcome `ro`.
pub open spec fn run_matches(
    ro: RunOutcome,
    s1: VmState,
    outs0: Seq<Seq<char>>,
    outs1: Seq<Seq<char>>,
    r: RunStatus,
) -> bool {
    match r {
        RunStatus::Stopped => ro matches RunOutcome::Halted { s, outs } && s == s1 && outs1
            == outs0 + decoded_outs(outs),
        RunStatus::Faulted(f) => ro matches RunOutcome::Faulted { s, outs, opcode, at } && s == s1
            && outs1 == outs0 + decoded_outs(outs) && f.opcode == opcode && f.at == at,
        RunStatus::OutOfSteps => ro matches RunOutcome::Running { s, outs } && s == s1 && outs1
            == outs0 + decoded_outs(outs),
    }
}

impl Machine {
    /// The fetch-decode-execute loop. Executes at most `max_steps`
    /// instructions; `stop` and faults are still recognized at the budget's
    /// edge. Each `print` appends one decoded line to `out`. The run follows
    /// `run_from` exactly: the returned status, the final machine state and
    /// the emitted text are those of `run_from(old(self)@, fuel)` for some
    /// fuel within the budget, and a budget exhaustion is exactly
    /// `run_from(old(self)@, max_steps)` still running.
    #[verifier::loop_isolation(false)]
    pub fn run(&mut self, out: &mut Vec<String>, max_steps: u64) -> (r: RunStatus)
        requires
            old(self).wf(),
        ensures
            final(self).wf(),
            exists|fuel: nat|
                fuel <= max_steps && run_matches(
                    #[trigger] run_from(old(self)@, fuel),
                    final(self)@,
                    old(out).deep_view(),
                    final(out).deep_view(),
                    r,
                ),
            r is OutOfSteps ==> run_matches(
                run_from(old(self)@, max_steps as nat),
                final(self)@,
                old(out).deep_view(),
                final(out).deep_view(),
                r,
            ),
    {
        let ghost s0 = self@;
        let ghost outs0 = out.deep_view();
        let ghost mut emitted: Seq<Seq<u8>> = Seq::empty();
        let mut k: u64 = 0;
        proof {
            assert forall|fuel: nat|
                run_from(s0, fuel + k as nat) == push_outs(emitted, run_from(self@, fuel)) by {
                lemma_push_outs_empty(run_from(self@, fuel));
            }
            assert(out.deep_view() =~= outs0 + decoded_outs(emitted));
        }
        loop
            invariant
                self.wf(),
                k <= max_steps,
                out.deep_view() == outs0 + decoded_outs(emitted),
                forall|fuel: nat|
                    run_from(s0, fuel + k as nat) == push_outs(emitted, run_from(self@, fuel)),
            decreases max_steps - k,
        {
            let op = self.memory.read(self.pc);
            let oc = match Opcode::from_byte(op) {
                Some(oc) => oc,
                None => {
                    proof {
                        assert(run_from(s0, k as nat) == push_outs(emitted, run_from(self@, 0)));
                    }
                    return RunStatus::Faulted(VmFault { opcode: op, at: self.pc });
                },
            };
            if let Opcode::Stop = oc {
                proof {
                    assert(run_from(s0, k as nat) == push_outs(emitted, run_from(self@, 0)));
                }
                return RunStatus::Stopped;
            }
            if k == max_steps {
                proof {
                    assert(run_from(s0, k as nat) == push_outs(emitted, run_from(self@, 0)));
                    assert(run_from(s0, k as nat) matches RunOutcome::Running { s, outs }
                        && s == self@ && outs == emitted);
                }
                return RunStatus::OutOfSteps;
            }
            let ghost pre = self@;
            let ghost mut stepout: Option<Seq<u8>> = None;
            let ilen: u8 = match oc {
                Opcode::Nop => 1,
                Opcode::Ld => {
                    let src = self.memory.read(self.pc.wrapping_add(1));
                    self.acc = self.memory.read(src);
                    2
                },
                Opcode::Ldi => {
                    self.acc = self.memory.read(self.pc.wrapping_add(1));
                    2
                },
                Opcode::St => {
                    let dst = self.memory.read(self.pc.wrapping_add(1));
                    self.memory.write(dst, self.acc);
                    2
                },
                Opcode::Sti => {
                    let val = self.memory.read(self.pc.wrapping_add(1));
                    let dst = self.memory.read(self.pc.wrapping_add(2));
                    self.memory.write(dst, val);
                    3
                },
                Opcode::Mov => {
                    let src = self.memory.read(self.pc.wrapping_add(1));
                    let dst = self.memory.read(self.pc.wrapping_add(2));
                    let v = self.memory.read(src);
                    self.memory.write(dst, v);
                    3
                },
                Opcode::Jmp => {
                    self.pc = self.memory.read(self.pc.wrapping_add(1));
                    0
                },
                Opcode::Jz => {
                    if self.acc == 0 {
                        self.pc = self.memory.read(self.pc.wrapping_add(1));
                        0
                    } else {
                        2
                    }
                },
                Opcode::Add => {
                    let src = self.memory.read(self.pc.wrapping_add(1));
                    self.acc = self.acc.wrapping_add(self.memory.read(src));
                    2
                },
                Opcode::Addi => {
                    self.acc = self.acc.wrapping_add(self.memory.read(self.pc.wrapping_add(1)));
                    2
                },
                Opcode::Sub => {
                    let src = self.memory.read(self.pc.wrapping_add(1));
                    self.acc = self.acc.wrapping_sub(self.memory.read(src));
                    2
                },
                Opcode::Subi => {
                    self.acc = self.acc.wrapping_sub(self.memory.read(self.pc.wrapping_add(1)));
                    2
                },
                Opcode::Shr => {
                    self.acc = self.acc >> 1u8;
                    1
                },
                Opcode::Shl => {
                    self.acc = self.acc << 1u8;
                    1
                },
                Opcode::And => {
                    let src = self.memory.read(self.pc.wrapping_add(1));
                    self.acc = self.acc & self.memory.read(src);
                    2
                },
                Opcode::Andi => {
                    self.acc = self.acc & self.memory.read(self.pc.wrapping_add(1));
                    2
                },
                Opcode::Print => {
                    let src = self.memory.read(self.pc.wrapping_add(1));
                    let len = self.memory.read(src);
                    let mut bytes: Vec<u8> = Vec::new();
                    let mut j: u8 = 0;
                    while j < len
                        invariant
                            j <= len,
                            bytes@.len() == j as int,
                            forall|t: int|
                                0 <= t < j as int ==> bytes@[t] == pre.mem[wadd(
                                    src,
                                    (t + 1) as u8,
                                ) as int],
                        decreases len - j,
                    {
                        let b = self.memory.read(src.wrapping_add(j.wrapping_add(1)));
                        bytes.push(b);
                        j = j + 1;
                    }
                    proof {
                        assert(bytes@ =~= print_bytes(pre, src));
                        stepout = Some(print_bytes(pre, src));
                    }
                    let text = utf8_lossy(&bytes);
                    let ghost dv0 = out.deep_view();
                    out.push(text);
                    proof {
                        assert(out.deep_view() =~= dv0.push(text@));
                    }
                    2
                },
                Opcode::Stop => {
                    // Unreachable: `stop` returned above.
                    proof {
                        assert(false);
                    }
                    0
                },
            };
            self.pc = self.pc.wrapping_add(ilen);
            proof {
                assert(step_of(pre) == (Step::Next { s: self@, out: stepout }));
                lemma_run_extend(s0, k as nat, emitted, pre, self@, stepout);
                let prev = emitted;
                emitted = emitted + opt_out(stepout);
                match stepout {
                    None => {
                        assert(decoded_outs(emitted) =~= decoded_outs(prev));
                    },
                    Some(b) => {
                        assert(decoded_outs(emitted) =~= decoded_outs(prev).push(
                            utf8_lossy_of(b),
                        ));
                        assert((outs0 + decoded_outs(prev)).push(utf8_lossy_of(b)) =~= outs0
                            + decoded_outs(prev).push(utf8_lossy_of(b)));
                    },
                }
                assert(out.deep_view() =~= outs0 + decoded_outs(emitted));
            }
            k = k + 1;
        }
    }
}

} // verus!
