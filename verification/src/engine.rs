//! The execution engine: a program counter over the symbols, dispatching one
//! transition per symbol against the tape and the I/O adapter.
//!
//! The meaning of a run is fixed by a small-step specification: `step_spec`
//! gives the one transition the machine may take from a state, and `run_n`
//! iterates it. The executable engine is proved to follow that specification
//! step for step. Because the language can loop forever, `run` takes a fuel
//! budget: it stops early, with the state it reached, once `fuel` steps have
//! been taken without the program ending.

use vstd::prelude::*;

use crate::errors::VmError;
use crate::io::IoAdapter;
use crate::program::balanced;
use crate::program::unmatched_close_at;
use crate::program::unmatched_open_at;
use crate::program::wf_jumps;
use crate::program::Program;
use crate::program::SYM_CLOSE;
use crate::program::SYM_DEC;
use crate::program::SYM_INC;
use crate::program::SYM_LEFT;
use crate::program::SYM_OPEN;
use crate::program::SYM_READ;
use crate::program::SYM_RIGHT;
use crate::program::SYM_WRITE;
use crate::tape::wrapping_dec;
use crate::tape::wrapping_inc;
use crate::tape::VirtualMachine;

verus! {

/// The number of cells on one run's tape.
pub const TAPE_SIZE: usize = 1024;

/// One machine state of the small-step semantics: the tape, the program
/// counter, the input still to be consumed, and the output emitted so far.
#[verifier::ext_equal]
pub struct StateV {
    pub cells: Seq<u8>,
    pub pointer: int,
    pub pc: int,
    pub input: Seq<u8>,
    pub output: Seq<u8>,
}

/// The state a run starts from: a zeroed tape with the pointer at the
/// midpoint offset, the program counter at 0, the whole input ahead and no
/// output behind.
pub open spec fn init_state(input: Seq<u8>) -> StateV {
    StateV {
        cells: Seq::new(TAPE_SIZE as nat, |i: int| 0u8),
        pointer: TAPE_SIZE as int / 2 - 1,
        pc: 0,
        input: input,
        output: Seq::empty(),
    }
}

/// The one transition the machine takes from `st`, where `st.pc` indexes a
/// symbol: cell arithmetic wraps, an unknown byte is a no-op, a `[` over a
/// zero cell and a `]` over a non-zero cell jump through the table, a read
/// past the end of input stores 0, and a move off the tape is the one
/// runtime fault.
pub open spec fn step_spec(sym: Seq<u8>, jumps: Seq<usize>, st: StateV) -> Result<
    StateV,
    VmError,
> {
    let c = sym[st.pc];
    if c == SYM_INC {
        Ok(
            StateV {
                cells: st.cells.update(st.pointer, wrapping_inc(st.cells[st.pointer])),
                pc: st.pc + 1,
                ..st
            },
        )
    } else if c == SYM_DEC {
        Ok(
            StateV {
                cells: st.cells.update(st.pointer, wrapping_dec(st.cells[st.pointer])),
                pc: st.pc + 1,
                ..st
            },
        )
    } else if c == SYM_RIGHT {
        if st.pointer + 1 < st.cells.len() {
            Ok(StateV { pointer: st.pointer + 1, pc: st.pc + 1, ..st })
        } else {
            Err(VmError::PointerOutOfBounds { pc: st.pc as usize, pointer: st.pointer as usize })
        }
    } else if c == SYM_LEFT {
        if st.pointer > 0 {
            Ok(StateV { pointer: st.pointer - 1, pc: st.pc + 1, ..st })
        } else {
            Err(VmError::PointerOutOfBounds { pc: st.pc as usize, pointer: st.pointer as usize })
        }
    } else if c == SYM_WRITE {
        Ok(StateV { output: st.output.push(st.cells[st.pointer]), pc: st.pc + 1, ..st })
    } else if c == SYM_READ {
        if st.input.len() > 0 {
            Ok(
                StateV {
                    cells: st.cells.update(st.pointer, st.input[0]),
                    input: st.input.skip(1),
                    pc: st.pc + 1,
                    ..st
                },
            )
        } else {
            Ok(StateV { cells: st.cells.update(st.pointer, 0u8), pc: st.pc + 1, ..st })
        }
    } else if c == SYM_OPEN {
        if st.cells[st.pointer] == 0 {
            Ok(StateV { pc: jumps[st.pc] + 1, ..st })
        } else {
            Ok(StateV { pc: st.pc + 1, ..st })
        }
    } else if c == SYM_CLOSE {
        if st.cells[st.pointer] != 0 {
            Ok(StateV { pc: jumps[st.pc] + 1, ..st })
        } else {
            Ok(StateV { pc: st.pc + 1, ..st })
        }
    } else {
        Ok(StateV { pc: st.pc + 1, ..st })
    }
}

/// The state after `n` steps from `st`: a state whose program counter has
/// run past the end is terminal and stays put, and a fault absorbs the rest.
pub open spec fn run_n(sym: Seq<u8>, jumps: Seq<usize>, st: StateV, n: nat) -> Result<
    StateV,
    VmError,
> decreases n,
{
    if n == 0 {
        Ok(st)
    } else {
        match run_n(sym, jumps, st, (n - 1) as nat) {
            Ok(s1) => if s1.pc >= sym.len() {
                Ok(s1)
            } else {
                step_spec(sym, jumps, s1)
            },
            Err(e) => Err(e),
        }
    }
}

/// Some run of at most `fuel` steps from `st0` ends past the last symbol,
/// in `end`.
pub open spec fn run_reaches_done(
    sym: Seq<u8>,
    jumps: Seq<usize>,
    st0: StateV,
    fuel: u64,
    end: StateV,
) -> bool {
    exists|k: nat|
        k <= fuel && #[trigger] run_n(sym, jumps, st0, k) == Ok::<StateV, VmError>(end)
            && end.pc >= sym.len()
}

/// Some run of fewer than `fuel` steps from `st0` reaches `end`, and the
/// step out of `end` faults with `e`; `end` keeps everything emitted before
/// the fault.
pub open spec fn run_reaches_fault(
    sym: Seq<u8>,
    jumps: Seq<usize>,
    st0: StateV,
    fuel: u64,
    end: StateV,
    e: VmError,
) -> bool {
    exists|k: nat|
        k < fuel && #[trigger] run_n(sym, jumps, st0, k) == Ok::<StateV, VmError>(end)
            && end.pc < sym.len() && step_spec(sym, jumps, end) == Err::<StateV, VmError>(e)
            && run_n(sym, jumps, st0, (k + 1) as nat) == Err::<StateV, VmError>(e)
}

/// `fuel` steps from `st0` reach `end` without the program ending or
/// faulting.
pub open spec fn run_out_of_fuel(
    sym: Seq<u8>,
    jumps: Seq<usize>,
    st0: StateV,
    fuel: u64,
    end: StateV,
) -> bool {
    run_n(sym, jumps, st0, fuel as nat) == Ok::<StateV, VmError>(end) && end.pc < sym.len()
}

/// No step retracts output: whatever a state has emitted stays emitted in
/// the state one transition later, so bytes written before a fault or before
/// the end of the program are never suppressed.
pub proof fn lemma_step_output_monotone(sym: Seq<u8>, jumps: Seq<usize>, st: StateV)
    requires
        step_spec(sym, jumps, st) is Ok,
    ensures
        st.output.is_prefix_of(step_spec(sym, jumps, st)->Ok_0.output),
{
    let post = step_spec(sym, jumps, st)->Ok_0;
    assert(st.output =~= post.output.subrange(0, st.output.len() as int));
}

/// A movement below cell 0 is a runtime bounds fault under the fixed-size
/// policy: the step from any state whose pointer rests on cell 0 under a `<`
/// symbol reports out-of-bounds with that program counter and pointer — the
/// pointer itself is never wrapped.
pub proof fn lemma_left_of_cell_zero_faults(sym: Seq<u8>, jumps: Seq<usize>, st: StateV)
    requires
        0 <= st.pc < sym.len(),
        sym[st.pc] == SYM_LEFT,
        st.pointer == 0,
    ensures
        step_spec(sym, jumps, st) == Err::<StateV, VmError>(
            (VmError::PointerOutOfBounds { pc: st.pc as usize, pointer: 0 }),
        ),
{
}

/// How a run ended: normally, on a runtime fault, or stopped by the fuel
/// budget with the program still going.
#[derive(Clone, Copy, Debug, PartialEq, Eq, Structural)]
pub enum RunStatus {
    /// The program counter ran past the last symbol.
    Done,
    /// A load-time or runtime error stopped the run.
    Fault(VmError),
    /// The step budget ran out before the program ended.
    OutOfFuel,
}

/// The execution engine of one run: it owns the program, the tape and the
/// byte streams, and advances the program counter.
pub struct Engine {
    pub program: Program,
    pub vm: VirtualMachine,
    pub io: IoAdapter,
    pub pc: usize,
}

impl Engine {
    /// The owned pieces are each well formed; the jump table matches the
    /// symbols.
    pub open spec fn wf(&self) -> bool {
        &&& self.program.wf()
        &&& self.vm.wf()
        &&& self.io.wf()
    }

    /// The machine state this engine is in, as the semantics sees it.
    pub open spec fn state(&self) -> StateV {
        StateV {
            cells: self.vm.cells@,
            pointer: self.vm.pointer as int,
            pc: self.pc as int,
            input: self.io.remaining(),
            output: self.io.output@,
        }
    }

    /// A fresh engine over a loaded program: new tape, buffered input,
    /// program counter at 0.
    pub fn new(program: Program, input: Vec<u8>) -> (engine: Engine)
        requires
            program.wf(),
        ensures
            engine.wf(),
            engine.program == program,
            engine.state() == init_state(input@),
    {
        let vm = VirtualMachine::new(TAPE_SIZE);
        let io = IoAdapter::new(input);
        let engine = Engine { program, vm, io, pc: 0 };
        proof {
            assert(engine.state().cells =~= init_state(input@).cells);
            assert(engine.state() =~= init_state(input@));
        }
        engine
    }

    /// Dispatch the symbol under the program counter: exactly the one
    /// transition of `step_spec`. On a fault the engine is left as it was,
    /// output included.
    pub fn step(&mut self) -> (r: Result<(), VmError>)
        requires
            old(self).wf(),
            old(self).pc < old(self).program.symbols@.len(),
        ensures
            final(self).wf(),
            final(self).program == old(self).program,
            match r {
                Ok(()) => step_spec(
                    old(self).program.symbols@,
                    old(self).program.jumps@,
                    old(self).state(),
                ) == Ok::<StateV, VmError>(final(self).state()),
                Err(e) => {
                    &&& step_spec(
                        old(self).program.symbols@,
                        old(self).program.jumps@,
                        old(self).state(),
                    ) == Err::<StateV, VmError>(e)
                    &&& final(self).state() == old(self).state()
                },
            },
    {
        let ghost sym = self.program.symbols@;
        let ghost jumps = self.program.jumps@;
        let ghost pre = self.state();
        let n: usize = self.program.symbols.len();
        let c = self.program.symbols[self.pc];
        if c == SYM_INC {
            self.vm.increment();
            self.pc = self.pc + 1;
            proof {
                assert(step_spec(sym, jumps, pre) == Ok::<StateV, VmError>(self.state())) by {
                    assert(self.state() =~= step_spec(sym, jumps, pre)->Ok_0);
                }
            }
            Ok(())
        } else if c == SYM_DEC {
            self.vm.decrement();
            self.pc = self.pc + 1;
            proof {
                assert(step_spec(sym, jumps, pre) == Ok::<StateV, VmError>(self.state())) by {
                    assert(self.state() =~= step_spec(sym, jumps, pre)->Ok_0);
                }
            }
            Ok(())
        } else if c == SYM_RIGHT {
            if self.vm.move_right() {
                self.pc = self.pc + 1;
                proof {
                    assert(step_spec(sym, jumps, pre) == Ok::<StateV, VmError>(self.state())) by {
                        assert(self.state() =~= step_spec(sym, jumps, pre)->Ok_0);
                    }
                }
                Ok(())
            } else {
                Err(VmError::PointerOutOfBounds { pc: self.pc, pointer: self.vm.pointer })
            }
        } else if c == SYM_LEFT {
            if self.vm.move_left() {
                self.pc = self.pc + 1;
                proof {
                    assert(step_spec(sym, jumps, pre) == Ok::<StateV, VmError>(self.state())) by {
                        assert(self.state() =~= step_spec(sym, jumps, pre)->Ok_0);
                    }
                }
                Ok(())
            } else {
                Err(VmError::PointerOutOfBounds { pc: self.pc, pointer: self.vm.pointer })
            }
        } else if c == SYM_WRITE {
            let v = self.vm.read_cell();
            self.io.write(v);
            self.pc = self.pc + 1;
            proof {
                assert(step_spec(sym, jumps, pre) == Ok::<StateV, VmError>(self.state())) by {
                    assert(self.state() =~= step_spec(sym, jumps, pre)->Ok_0);
                }
            }
            Ok(())
        } else if c == SYM_READ {
            let v = self.io.read();
            self.vm.write_cell(v);
            self.pc = self.pc + 1;
            proof {
                assert(step_spec(sym, jumps, pre) == Ok::<StateV, VmError>(self.state())) by {
                    assert(self.state() =~= step_spec(sym, jumps, pre)->Ok_0);
                }
            }
            Ok(())
        } else if c == SYM_OPEN {
            proof {
                assert(crate::program::is_match_pair(sym, self.pc as int, jumps[self.pc as int] as int));
            }
            if self.vm.read_cell() == 0 {
                let target = self.program.jumps[self.pc];
                self.pc = target + 1;
            } else {
                self.pc = self.pc + 1;
            }
            proof {
                assert(step_spec(sym, jumps, pre) == Ok::<StateV, VmError>(self.state())) by {
                    assert(self.state() =~= step_spec(sym, jumps, pre)->Ok_0);
                }
            }
            Ok(())
        } else if c == SYM_CLOSE {
            proof {
                assert(crate::program::is_match_pair(sym, jumps[self.pc as int] as int, self.pc as int));
            }
            if self.vm.read_cell() != 0 {
                let target = self.program.jumps[self.pc];
                self.pc = target + 1;
            } else {
                self.pc = self.pc + 1;
            }
            proof {
                assert(step_spec(sym, jumps, pre) == Ok::<StateV, VmError>(self.state())) by {
                    assert(self.state() =~= step_spec(sym, jumps, pre)->Ok_0);
                }
            }
            Ok(())
        } else {
            self.pc = self.pc + 1;
            proof {
                assert(step_spec(sym, jumps, pre) == Ok::<StateV, VmError>(self.state())) by {
                    assert(self.state() =~= step_spec(sym, jumps, pre)->Ok_0);
                }
            }
            Ok(())
        }
    }

    /// Run until the program ends, a fault stops it, or `fuel` steps have
    /// been taken. The result is exactly what iterating `step_spec` from the
    /// starting state gives; on a fault the engine holds the state just
    /// before the failing step, so everything emitted stays emitted.
    #[verifier::loop_isolation(false)]
    pub fn run(&mut self, fuel: u64) -> (r: RunStatus)
        requires
            old(self).wf(),
        ensures
            final(self).wf(),
            final(self).program == old(self).program,
            match r {
                RunStatus::Done => run_reaches_done(
                    old(self).program.symbols@,
                    old(self).program.jumps@,
                    old(self).state(),
                    fuel,
                    final(self).state(),
                ),
                RunStatus::Fault(e) => run_reaches_fault(
                    old(self).program.symbols@,
                    old(self).program.jumps@,
                    old(self).state(),
                    fuel,
                    final(self).state(),
                    e,
                ),
                RunStatus::OutOfFuel => run_out_of_fuel(
                    old(self).program.symbols@,
                    old(self).program.jumps@,
                    old(self).state(),
                    fuel,
                    final(self).state(),
                ),
            },
    {
        let ghost sym = self.program.symbols@;
        let ghost jumps = self.program.jumps@;
        let ghost start = self.state();
        let ghost prog0 = self.program;
        let n: usize = self.program.symbols.len();
        let mut steps: u64 = 0;
        while steps < fuel
            invariant
                self.wf(),
                self.program == prog0,
                sym == prog0.symbols@,
                jumps == prog0.jumps@,
                n == sym.len(),
                steps <= fuel,
                run_n(sym, jumps, start, steps as nat) == Ok::<StateV, VmError>(self.state()),
            decreases fuel - steps,
        {
            if self.pc >= n {
                return RunStatus::Done;
            }
            let res = self.step();
            match res {
                Ok(()) => {
                    proof {
                        assert(run_n(sym, jumps, start, (steps + 1) as nat) == Ok::<
                            StateV,
                            VmError,
                        >(self.state()));
                    }
                    steps = steps + 1;
                },
                Err(e) => {
                    proof {
                        assert(run_n(sym, jumps, start, (steps + 1) as nat) == Err::<
                            StateV,
                            VmError,
                        >(e));
                    }
                    return RunStatus::Fault(e);
                },
            }
        }
        if self.pc >= n {
            RunStatus::Done
        } else {
            RunStatus::OutOfFuel
        }
    }
}

/// What one whole run returns: the bytes emitted — kept even when a fault
/// ends the run — and how it ended.
pub struct ExecOutcome {
    pub output: Vec<u8>,
    pub status: RunStatus,
}

/// Take source text and run it to completion: load (resolving the loop
/// brackets), then drive a fresh engine over the buffered `input` for at
/// most `fuel` steps. An unbalanced source faults before execution starts,
/// with nothing emitted; otherwise the outcome is exactly what the
/// small-step semantics gives for the matching jump table.
pub fn exec(code: Vec<u8>, input: Vec<u8>, fuel: u64) -> (r: ExecOutcome)
    ensures
        !balanced(code@) ==> {
            &&& r.output@ == Seq::<u8>::empty()
            &&& match r.status {
                RunStatus::Fault(e) => match e {
                    VmError::UnmatchedClose { position } => unmatched_close_at(code@, position),
                    VmError::UnmatchedOpen { position } => unmatched_open_at(code@, position),
                    VmError::PointerOutOfBounds { .. } => false,
                },
                _ => false,
            }
        },
        balanced(code@) ==> exists|jumps: Seq<usize>|
            #[trigger] wf_jumps(code@, jumps) && match r.status {
                RunStatus::Done => exists|end: StateV|
                    #[trigger] run_reaches_done(code@, jumps, init_state(input@), fuel, end)
                        && r.output@ == end.output,
                RunStatus::Fault(e) => exists|end: StateV|
                    #[trigger] run_reaches_fault(code@, jumps, init_state(input@), fuel, end, e)
                        && r.output@ == end.output,
                RunStatus::OutOfFuel => exists|end: StateV|
                    #[trigger] run_out_of_fuel(code@, jumps, init_state(input@), fuel, end)
                        && r.output@ == end.output,
            },
{
    let ghost src = code@;
    match Program::new(code) {
        Err(e) => {
            let output: Vec<u8> = Vec::new();
            proof {
                assert(output@ =~= Seq::<u8>::empty());
            }
            ExecOutcome { output, status: RunStatus::Fault(e) }
        },
        Ok(prog) => {
            let ghost jumps = prog.jumps@;
            let mut engine = Engine::new(prog, input);
            let status = engine.run(fuel);
            let output = engine.io.output;
            proof {
                assert(wf_jumps(src, jumps));
            }
            ExecOutcome { output, status }
        },
    }
}

} // verus!
