//! The execution engine: a program-counter-driven stack machine over the
//! decoded instruction sequence.
//!
//! `spec_step` gives the exact mathematical account of one execution step
//! over a [`VmState`]; `spec_run` iterates it. [`VirtualMachine::run`] is
//! proved to realise that relation, pausing at the two read instructions so
//! that the caller can supply input through [`VirtualMachine::supply_char`]
//! and [`VirtualMachine::supply_int`].

use vstd::prelude::*;
use vstd::hash_map::{HashMapWithView, StringHashMap};
use vstd::pervasive::unreached;
use vstd::string::StringExecFns;

use crate::numbers::{dec_str, int_value, is_int_literal, parse_int_text, trim, usize_to_string};
use crate::parser::{
    spec_decode, spec_decode_prefix, spec_read_token, DecodeAll, Parser, TokenStep,
};
use crate::parser_error::ParserError;
use crate::token::{tokens_view, CommandType, SpecCommand, SpecToken, SpecTokenType, Token, TokenType};
use crate::vm_error::VMError;

verus! {

broadcast use vstd::std_specs::hash::group_hash_axioms;

/// One element of the program's output: a character code to print, or an
/// integer to print in decimal.
#[derive(Debug, PartialEq, Eq, Clone, Copy)]
pub enum OutItem {
    Chr(i32),
    Num(i32),
}

/// Which read instruction the engine is paused at.
#[derive(Debug, PartialEq, Eq, Clone, Copy)]
pub enum ReadKind {
    Chr,
    Num,
}

/// What a call to [`VirtualMachine::run`] came back with: normal
/// termination, a pause at a read instruction, or an exhausted step budget
/// with the run still in progress.
#[derive(Debug, PartialEq, Eq, Clone, Copy)]
pub enum RunSignal {
    Halted,
    NeedChar,
    NeedInt,
    Paused,
}

/// The mutable execution state: evaluation stack, sparse heap, call stack,
/// program counter and accumulated output.
pub struct VmState {
    pub stack: Seq<i32>,
    pub heap: Map<u32, i32>,
    pub calls: Seq<usize>,
    pub pc: int,
    pub output: Seq<OutItem>,
}

/// The label table of a program: for each label instruction, its own index,
/// later definitions overwriting earlier ones.
pub open spec fn spec_labels(ts: Seq<SpecToken>) -> Map<Seq<char>, usize>
    decreases ts.len(),
{
    if ts.len() == 0 {
        Map::empty()
    } else {
        let m = spec_labels(ts.drop_last());
        match ts.last().token_type {
            SpecTokenType::Command(SpecCommand::Labl(name)) => m.insert(
                name,
                (ts.len() - 1) as usize,
            ),
            _ => m,
        }
    }
}

/// Every index in the label table points inside the program.
pub proof fn lemma_spec_labels_bound(ts: Seq<SpecToken>)
    requires
        ts.len() <= usize::MAX,
    ensures
        forall|k: Seq<char>|
            spec_labels(ts).contains_key(k) ==> #[trigger] spec_labels(ts)[k] < ts.len(),
    decreases ts.len(),
{
    if ts.len() > 0 {
        lemma_spec_labels_bound(ts.drop_last());
        assert forall|k: Seq<char>| spec_labels(ts).contains_key(k) implies #[trigger] spec_labels(
            ts,
        )[k] < ts.len() by {
            let m = spec_labels(ts.drop_last());
            if m.contains_key(k) {
                assert(m[k] < ts.drop_last().len());
            }
        }
    }
}

/// The diagnostic for a jump or call to an unknown label.
pub open spec fn msg_label_missing(name: Seq<char>) -> Seq<char> {
    "Label "@ + name + " does not exist"@
}

/// The diagnostic for a program counter beyond the instruction sequence.
pub open spec fn msg_pointer_range(pc: int) -> Seq<char> {
    "Program pointer out of range (at "@ + dec_str(pc) + ")"@
}

/// The outcome of reading the evaluation stack at a depth below the top.
pub enum StackRead {
    Val(i32),
    Fail(Seq<char>),
}

/// Reads the stack at depth `index` from the top (0 is the top): fails on an
/// empty stack, on a depth below the bottom, and on a negative depth.
pub open spec fn spec_get_stack(stack: Seq<i32>, index: int) -> StackRead {
    if stack.len() == 0 {
        StackRead::Fail("Stack is empty"@)
    } else if stack.len() - 1 - index < 0 {
        StackRead::Fail("Stack index is negative"@)
    } else if stack.len() - 1 - index >= stack.len() {
        StackRead::Fail("Stack index out of bounds"@)
    } else {
        StackRead::Val(stack[stack.len() - 1 - index])
    }
}

/// The outcome of one execution step: continue at a new state, pause at a
/// read instruction, halt, or fail with a diagnostic. Pauses, halts and
/// failures carry the state they leave behind.
pub enum StepRes {
    Next(VmState),
    Read(ReadKind, VmState),
    Halt(VmState),
    Fail(Seq<char>, VmState),
}

/// One step of the instruction at the program counter, per the dispatch
/// table: stack and arithmetic instructions pop and push, heap instructions
/// address the sparse heap (a read of an absent address stores and yields
/// zero), control transfers overwrite the counter with the label's index
/// plus one, and the output instructions append to the output. All other
/// instructions advance the counter by one.
pub open spec fn spec_step_command(
    labels: Map<Seq<char>, usize>,
    st: VmState,
    c: SpecCommand,
) -> StepRes {
    match c {
        SpecCommand::Push(v) => StepRes::Next(
            VmState { stack: st.stack.push(v as i32), pc: st.pc + 1, ..st },
        ),
        SpecCommand::Dup => {
            if st.stack.len() == 0 {
                StepRes::Fail("Stack is empty"@, st)
            } else {
                StepRes::Next(VmState { stack: st.stack.push(st.stack.last()), pc: st.pc + 1, ..st })
            }
        },
        SpecCommand::Copy(n) => {
            match spec_get_stack(st.stack, n) {
                StackRead::Val(v) => StepRes::Next(
                    VmState { stack: st.stack.push(v), pc: st.pc + 1, ..st },
                ),
                StackRead::Fail(m) => StepRes::Fail(m, st),
            }
        },
        SpecCommand::Swap => {
            if st.stack.len() == 0 {
                StepRes::Fail("Stack is empty"@, st)
            } else if st.stack.len() == 1 {
                StepRes::Fail("Stack is empty"@, VmState { stack: st.stack.drop_last(), ..st })
            } else {
                let n1 = st.stack[st.stack.len() - 1];
                let n2 = st.stack[st.stack.len() - 2];
                StepRes::Next(
                    VmState {
                        stack: st.stack.take(st.stack.len() - 2).push(n1).push(n2),
                        pc: st.pc + 1,
                        ..st
                    },
                )
            }
        },
        SpecCommand::Disc => {
            if st.stack.len() == 0 {
                StepRes::Fail("Stack is empty"@, st)
            } else {
                StepRes::Next(VmState { stack: st.stack.drop_last(), pc: st.pc + 1, ..st })
            }
        },
        SpecCommand::Slide(n) => {
            if st.stack.len() == 0 {
                StepRes::Fail("Stack is empty"@, st)
            } else {
                let top = st.stack.last();
                let rest = st.stack.drop_last();
                if n <= rest.len() {
                    StepRes::Next(
                        VmState {
                            stack: rest.take(rest.len() - (if n < 0 {
                                0int
                            } else {
                                n
                            })).push(top),
                            pc: st.pc + 1,
                            ..st
                        },
                    )
                } else {
                    StepRes::Fail("Stack is empty"@, VmState { stack: Seq::empty(), ..st })
                }
            }
        },
        SpecCommand::Add => spec_step_binary(st, SpecCommand::Add),
        SpecCommand::Sub => spec_step_binary(st, SpecCommand::Sub),
        SpecCommand::Mult => spec_step_binary(st, SpecCommand::Mult),
        SpecCommand::IDiv => spec_step_binary(st, SpecCommand::IDiv),
        SpecCommand::Mod => spec_step_binary(st, SpecCommand::Mod),
        SpecCommand::Store => {
            if st.stack.len() == 0 {
                StepRes::Fail("Stack is empty"@, st)
            } else if st.stack.len() == 1 {
                StepRes::Fail("Stack is empty"@, VmState { stack: st.stack.drop_last(), ..st })
            } else {
                let value = st.stack[st.stack.len() - 1];
                let addr = st.stack[st.stack.len() - 2];
                let rest = st.stack.take(st.stack.len() - 2);
                if addr < 0 {
                    StepRes::Fail("Heap index can not be negative"@, VmState { stack: rest, ..st })
                } else {
                    StepRes::Next(
                        VmState {
                            stack: rest,
                            heap: st.heap.insert(addr as u32, value),
                            pc: st.pc + 1,
                            ..st
                        },
                    )
                }
            }
        },
        SpecCommand::Retr => {
            if st.stack.len() == 0 {
                StepRes::Fail("Stack is empty"@, st)
            } else {
                let addr = st.stack.last();
                let rest = st.stack.drop_last();
                if addr < 0 {
                    StepRes::Fail("Heap index can not be negative"@, VmState { stack: rest, ..st })
                } else if st.heap.dom().contains(addr as u32) {
                    StepRes::Next(
                        VmState { stack: rest.push(st.heap[addr as u32]), pc: st.pc + 1, ..st },
                    )
                } else {
                    StepRes::Next(
                        VmState {
                            stack: rest.push(0),
                            heap: st.heap.insert(addr as u32, 0),
                            pc: st.pc + 1,
                            ..st
                        },
                    )
                }
            }
        },
        SpecCommand::Labl(_) => StepRes::Next(VmState { pc: st.pc + 1, ..st }),
        SpecCommand::Call(name) => {
            let pushed = VmState { calls: st.calls.push(st.pc as usize), ..st };
            if labels.contains_key(name) {
                StepRes::Next(VmState { pc: labels[name] + 1, ..pushed })
            } else {
                StepRes::Fail(msg_label_missing(name), pushed)
            }
        },
        SpecCommand::Jump(name) => {
            if labels.contains_key(name) {
                StepRes::Next(VmState { pc: labels[name] + 1, ..st })
            } else {
                StepRes::Fail(msg_label_missing(name), st)
            }
        },
        SpecCommand::JumpZ(name) => {
            if st.stack.len() == 0 {
                StepRes::Fail("Stack is empty"@, st)
            } else {
                let v = st.stack.last();
                let popped = VmState { stack: st.stack.drop_last(), ..st };
                if v == 0 {
                    if labels.contains_key(name) {
                        StepRes::Next(VmState { pc: labels[name] + 1, ..popped })
                    } else {
                        StepRes::Fail(msg_label_missing(name), popped)
                    }
                } else {
                    StepRes::Next(VmState { pc: st.pc + 1, ..popped })
                }
            }
        },
        SpecCommand::JumpN(name) => {
            if st.stack.len() == 0 {
                StepRes::Fail("Stack is empty"@, st)
            } else {
                let v = st.stack.last();
                let popped = VmState { stack: st.stack.drop_last(), ..st };
                if v < 0 {
                    if labels.contains_key(name) {
                        StepRes::Next(VmState { pc: labels[name] + 1, ..popped })
                    } else {
                        StepRes::Fail(msg_label_missing(name), popped)
                    }
                } else {
                    StepRes::Next(VmState { pc: st.pc + 1, ..popped })
                }
            }
        },
        SpecCommand::EndS => {
            if st.calls.len() > 0 {
                StepRes::Next(
                    VmState { calls: st.calls.drop_last(), pc: st.calls.last() + 1, ..st },
                )
            } else {
                StepRes::Next(VmState { pc: st.pc + 1, ..st })
            }
        },
        SpecCommand::EndP => StepRes::Halt(st),
        SpecCommand::OutC => {
            if st.stack.len() == 0 {
                StepRes::Fail("Stack is empty"@, st)
            } else {
                StepRes::Next(
                    VmState {
                        stack: st.stack.drop_last(),
                        output: st.output.push(OutItem::Chr(st.stack.last())),
                        pc: st.pc + 1,
                        ..st
                    },
                )
            }
        },
        SpecCommand::OutI => {
            if st.stack.len() == 0 {
                StepRes::Fail("Stack is empty"@, st)
            } else {
                StepRes::Next(
                    VmState {
                        stack: st.stack.drop_last(),
                        output: st.output.push(OutItem::Num(st.stack.last())),
                        pc: st.pc + 1,
                        ..st
                    },
                )
            }
        },
        SpecCommand::ReadC => {
            if st.stack.len() == 0 {
                StepRes::Fail("Stack is empty"@, st)
            } else if st.stack.last() < 0 {
                StepRes::Fail("Heap index can not be negative"@, st)
            } else {
                StepRes::Read(ReadKind::Chr, st)
            }
        },
        SpecCommand::ReadI => {
            if st.stack.len() == 0 {
                StepRes::Fail("Stack is empty"@, st)
            } else if st.stack.last() < 0 {
                StepRes::Fail("Heap index can not be negative"@, st)
            } else {
                StepRes::Read(ReadKind::Num, st)
            }
        },
    }
}

/// A binary arithmetic step: pops the right operand, then the left, and
/// pushes the result. Addition, subtraction and multiplication wrap at the
/// 32-bit boundary; division and remainder truncate toward zero and fail as
/// fatal arithmetic errors on a zero divisor or on overflow.
pub open spec fn spec_step_binary(st: VmState, c: SpecCommand) -> StepRes {
    if st.stack.len() == 0 {
        StepRes::Fail("Stack is empty"@, st)
    } else if st.stack.len() == 1 {
        StepRes::Fail("Stack is empty"@, VmState { stack: st.stack.drop_last(), ..st })
    } else {
        let b = st.stack[st.stack.len() - 1];
        let a = st.stack[st.stack.len() - 2];
        let rest = st.stack.take(st.stack.len() - 2);
        match c {
            SpecCommand::Add => StepRes::Next(
                VmState { stack: rest.push(a.wrapping_add(b)), pc: st.pc + 1, ..st },
            ),
            SpecCommand::Sub => StepRes::Next(
                VmState { stack: rest.push(a.wrapping_sub(b)), pc: st.pc + 1, ..st },
            ),
            SpecCommand::Mult => StepRes::Next(
                VmState { stack: rest.push(a.wrapping_mul(b)), pc: st.pc + 1, ..st },
            ),
            SpecCommand::IDiv => {
                match a.checked_div(b) {
                    Some(q) => StepRes::Next(VmState { stack: rest.push(q), pc: st.pc + 1, ..st }),
                    None => StepRes::Fail(
                        "Fatal arithmetic error"@,
                        VmState { stack: rest, ..st },
                    ),
                }
            },
            SpecCommand::Mod => {
                match a.checked_rem(b) {
                    Some(q) => StepRes::Next(VmState { stack: rest.push(q), pc: st.pc + 1, ..st }),
                    None => StepRes::Fail(
                        "Fatal arithmetic error"@,
                        VmState { stack: rest, ..st },
                    ),
                }
            },
            _ => StepRes::Fail("Invalid command"@, st),
        }
    }
}

/// One execution step: halt when the counter has reached the end of the
/// program, fail when it lies beyond it, and otherwise dispatch on the
/// instruction at the counter. A bare group marker is not a runnable
/// instruction.
pub open spec fn spec_step(
    prog: Seq<SpecToken>,
    labels: Map<Seq<char>, usize>,
    st: VmState,
) -> StepRes {
    if st.pc == prog.len() {
        StepRes::Halt(st)
    } else if 0 <= st.pc < prog.len() {
        match prog[st.pc].token_type {
            SpecTokenType::Imp(_) => StepRes::Fail("Invalid command"@, st),
            SpecTokenType::Command(c) => spec_step_command(labels, st, c),
        }
    } else {
        StepRes::Fail(msg_pointer_range(st.pc), st)
    }
}

/// `n` execution steps from `st`: `Next` marks a run still in progress;
/// pauses, halts and failures are terminal and persist.
pub open spec fn spec_run(
    prog: Seq<SpecToken>,
    labels: Map<Seq<char>, usize>,
    st: VmState,
    n: nat,
) -> StepRes
    decreases n,
{
    if n == 0 {
        StepRes::Next(st)
    } else {
        match spec_run(prog, labels, st, (n - 1) as nat) {
            StepRes::Next(s1) => spec_step(prog, labels, s1),
            done => done,
        }
    }
}

/// The state after input is supplied to a paused read instruction: the value
/// is stored at the address on top of the stack (which stays), and the
/// counter moves past the read.
pub open spec fn spec_supply(st: VmState, value: i32) -> VmState
    recommends
        st.stack.len() > 0,
        st.stack.last() >= 0,
{
    VmState { heap: st.heap.insert(st.stack.last() as u32, value), pc: st.pc + 1, ..st }
}

/// The stack machine: the decoded program, its label table, and the mutable
/// execution state.
pub struct VirtualMachine {
    parser: Parser,
    collection: Vec<Token>,
    labels: StringHashMap<usize>,
    subroutine_stack: Vec<usize>,
    stack: Vec<i32>,
    heap: HashMapWithView<u32, i32>,
    pointer: usize,
    parsed: bool,
    output: Vec<OutItem>,
}

impl VirtualMachine {
    /// The decoded instruction sequence.
    pub closed spec fn tokens(&self) -> Seq<SpecToken> {
        tokens_view(self.collection@)
    }

    /// The label table.
    pub closed spec fn labels_map(&self) -> Map<Seq<char>, usize> {
        self.labels@
    }

    /// The mutable execution state.
    pub closed spec fn state(&self) -> VmState {
        VmState {
            stack: self.stack@,
            heap: self.heap@,
            calls: self.subroutine_stack@,
            pc: self.pointer as int,
            output: self.output@,
        }
    }

    /// Whether the one decode pass has already run.
    pub closed spec fn is_parsed(&self) -> bool {
        self.parsed
    }

    /// The characters of the source not yet decoded.
    pub closed spec fn source_rest(&self) -> Seq<char> {
        self.parser.remaining()
    }

    /// The decoder's position in the filtered source.
    pub closed spec fn source_pointer(&self) -> int {
        self.parser.spec_pointer()
    }

    /// The decoder's line counter.
    pub closed spec fn source_line(&self) -> int {
        self.parser.spec_line()
    }

    /// Validity: the cursor, every recorded return address and every label
    /// in the table point inside the program.
    pub closed spec fn wf(&self) -> bool {
        &&& self.parser.wf()
        &&& self.pointer <= self.collection@.len()
        &&& forall|i: int|
            0 <= i < self.subroutine_stack@.len() ==> (#[trigger] self.subroutine_stack@[i])
                < self.collection@.len()
        &&& forall|k: Seq<char>|
            self.labels@.contains_key(k) ==> #[trigger] self.labels@[k] < self.collection@.len()
        &&& !self.parsed ==> (self.collection@.len() == 0 && self.labels@ == Map::<
            Seq<char>,
            usize,
        >::empty() && self.subroutine_stack@.len() == 0 && self.stack@.len() == 0 && self.pointer
            == 0 && self.output@.len() == 0)
    }

    /// Takes ownership of the decoder and prepares an empty machine: counter
    /// at zero, empty stack, heap, call stack and output, not yet decoded.
    pub fn new(parser: Parser) -> (vm: VirtualMachine)
        requires
            parser.wf(),
        ensures
            vm.wf(),
            !vm.is_parsed(),
            vm.source_rest() == parser.remaining(),
            vm.source_pointer() == parser.spec_pointer(),
            vm.source_line() == parser.spec_line(),
            vm.tokens() == Seq::<SpecToken>::empty(),
            vm.labels_map() == Map::<Seq<char>, usize>::empty(),
            vm.state() == (VmState {
                stack: Seq::<i32>::empty(),
                heap: Map::<u32, i32>::empty(),
                calls: Seq::<usize>::empty(),
                pc: 0,
                output: Seq::<OutItem>::empty(),
            }),
    {
        let vm = VirtualMachine {
            parser,
            collection: Vec::new(),
            labels: StringHashMap::new(),
            subroutine_stack: Vec::new(),
            stack: Vec::new(),
            heap: HashMapWithView::new(),
            pointer: 0,
            parsed: false,
            output: Vec::new(),
        };
        proof {
            assert(tokens_view(vm.collection@) =~= Seq::<SpecToken>::empty());
        }
        vm
    }

    /// Decodes the whole source into the instruction sequence, consuming it
    /// all, then builds the label table, exactly as `spec_decode` and
    /// `spec_labels` describe. A second decode attempt is a misuse error. A
    /// decode failure carries the decoder's diagnostic and is fatal: the
    /// machine keeps the instructions decoded before the failure
    /// (`spec_decode_prefix`) and its label table stays empty.
    #[verifier::loop_isolation(false)]
    pub fn parse(&mut self) -> (r: Result<(), ParserError>)
        requires
            old(self).wf(),
        ensures
            final(self).wf(),
            final(self).state() == old(self).state(),
            old(self).is_parsed() ==> (r is Err && r->Err_0@ == "Already parsed source"@
                && *final(self) == *old(self)),
            !old(self).is_parsed() ==> {
                &&& final(self).is_parsed()
                &&& (match spec_decode(
                    old(self).source_rest(),
                    old(self).source_pointer(),
                    old(self).source_line(),
                ) {
                    DecodeAll::Toks(ts) => {
                        &&& r is Ok
                        &&& final(self).tokens() == ts
                        &&& final(self).labels_map() == spec_labels(ts)
                        &&& final(self).source_rest().len() == 0
                    },
                    DecodeAll::Fail { msg } => {
                        &&& r is Err
                        &&& r->Err_0@ == msg
                        &&& final(self).tokens() == spec_decode_prefix(
                            old(self).source_rest(),
                            old(self).source_pointer(),
                            old(self).source_line(),
                        )
                        &&& final(self).labels_map() == Map::<Seq<char>, usize>::empty()
                    },
                })
            },
    {
        if self.parsed {
            return Err(ParserError::new("Already parsed source"));
        }
        self.parsed = true;
        let ghost rem0 = self.parser.remaining();
        let ghost p0 = self.parser.spec_pointer();
        let ghost l0 = self.parser.spec_line();
        let ghost st0 = self.state();
        proof {
            assert(st0 == old(self).state());
        }
        while !self.parser.is_end()
            invariant
                self.parser.wf(),
                self.parsed,
                self.state() == st0,
                self.labels@ == Map::<Seq<char>, usize>::empty(),
                self.pointer == 0,
                self.subroutine_stack@.len() == 0,
                self.stack@.len() == 0,
                self.output@.len() == 0,
                spec_decode(rem0, p0, l0) == (match spec_decode(
                    self.parser.remaining(),
                    self.parser.spec_pointer(),
                    self.parser.spec_line(),
                ) {
                    DecodeAll::Toks(rest) => DecodeAll::Toks(tokens_view(self.collection@) + rest),
                    DecodeAll::Fail { msg } => DecodeAll::Fail { msg },
                }),
                spec_decode_prefix(rem0, p0, l0) =~= tokens_view(self.collection@)
                    + spec_decode_prefix(
                    self.parser.remaining(),
                    self.parser.spec_pointer(),
                    self.parser.spec_line(),
                ),
            decreases self.parser.remaining().len(),
        {
            let ghost rem_cur = self.parser.remaining();
            let ghost p_cur = self.parser.spec_pointer();
            let ghost l_cur = self.parser.spec_line();
            match self.parser.read_token() {
                Ok(t) => {
                    proof {
                        crate::parser::lemma_read_token_consumed(rem_cur, p_cur, l_cur);
                        if let TokenStep::Tok { token, consumed, new_line } = spec_read_token(
                            rem_cur,
                            p_cur,
                            l_cur,
                        ) {
                            assert(tokens_view(self.collection@.push(t)) =~= tokens_view(
                                self.collection@,
                            ) + seq![token]);
                            if let DecodeAll::Toks(rest2) = spec_decode(
                                rem_cur.skip(consumed),
                                p_cur + consumed,
                                new_line,
                            ) {
                                assert((tokens_view(self.collection@) + seq![token]) + rest2
                                    =~= tokens_view(self.collection@) + (seq![token] + rest2));
                            }
                            let pre2 = spec_decode_prefix(
                                rem_cur.skip(consumed),
                                p_cur + consumed,
                                new_line,
                            );
                            assert((tokens_view(self.collection@) + seq![token]) + pre2
                                =~= tokens_view(self.collection@) + (seq![token] + pre2));
                        }
                    }
                    self.collection.push(t);
                },
                Err(e) => {
                    proof {
                        assert(tokens_view(self.collection@) + Seq::<SpecToken>::empty()
                            =~= tokens_view(self.collection@));
                    }
                    return Err(e);
                },
            }
        }
        proof {
            assert(tokens_view(self.collection@) + Seq::<SpecToken>::empty() =~= tokens_view(
                self.collection@,
            ));
        }
        let ghost toks = self.tokens();
        let mut index: usize = 0;
        while index < self.collection.len()
            invariant
                index <= self.collection@.len(),
                self.parser.wf(),
                self.parsed,
                self.state() == st0,
                self.pointer == 0,
                self.subroutine_stack@.len() == 0,
                self.stack@.len() == 0,
                self.output@.len() == 0,
                toks == tokens_view(self.collection@),
                self.labels@ == spec_labels(toks.take(index as int)),
                spec_decode(rem0, p0, l0) == DecodeAll::Toks(toks),
                self.parser.remaining().len() == 0,
            decreases self.collection@.len() - index,
        {
            let t = &self.collection[index];
            let lab: Option<String> = match &t.token_type {
                TokenType::Command(CommandType::Labl(label)) => Some(label.clone()),
                _ => None,
            };
            proof {
                assert(toks.take(index + 1).drop_last() =~= toks.take(index as int));
                assert(toks.take(index + 1).last() == toks[index as int]);
            }
            match lab {
                Some(l) => {
                    self.labels.insert(l, index);
                },
                None => {},
            }
            index = index + 1;
        }
        proof {
            assert(toks.take(self.collection@.len() as int) =~= toks);
            lemma_spec_labels_bound(toks);
        }
        Ok(())
    }

    /// Reads the evaluation stack at `index` below the top, as
    /// `spec_get_stack` describes.
    fn get_stack(&self, index: usize) -> (r: Result<i32, VMError>)
        requires
            index <= i32::MAX as usize,
        ensures
            (match spec_get_stack(self.state().stack, index as int) {
                StackRead::Val(v) => r is Ok && r->Ok_0 == v,
                StackRead::Fail(m) => r is Err && r->Err_0@ == m,
            }),
    {
        if self.stack.len() == 0 {
            Err(VMError::new("Stack is empty"))
        } else if index >= self.stack.len() {
            Err(VMError::new("Stack index is negative"))
        } else {
            Ok(self.stack[self.stack.len() - 1 - index])
        }
    }

    /// Pops the top of the evaluation stack, failing on an empty stack.
    fn pop_stack(&mut self) -> (r: Result<i32, VMError>)
        ensures
            (match r {
                Ok(v) => {
                    &&& old(self).state().stack.len() > 0
                    &&& v == old(self).state().stack.last()
                    &&& final(self).state() == (VmState {
                        stack: old(self).state().stack.drop_last(),
                        ..old(self).state()
                    })
                    &&& final(self).tokens() == old(self).tokens()
                    &&& final(self).labels_map() == old(self).labels_map()
                    &&& final(self).is_parsed() == old(self).is_parsed()
                    &&& (old(self).wf() ==> final(self).wf())
                },
                Err(e) => {
                    &&& old(self).stack@.len() == 0
                    &&& e@ == "Stack is empty"@
                    &&& *final(self) == *old(self)
                },
            }),
    {
        if self.stack.len() == 0 {
            return Err(VMError::new("Stack is empty"));
        }
        let v = self.stack[self.stack.len() - 1];
        self.stack.pop();
        proof {
            assert(self.stack@ =~= old(self).stack@.drop_last());
        }
        Ok(v)
    }

    /// Looks a label up in the table, failing with a diagnostic that names
    /// the label when it was never defined.
    fn get_label(&self, label: &String) -> (r: Result<usize, VMError>)
        ensures
            (match r {
                Ok(i) => self.labels_map().contains_key(label@) && i == self.labels_map()[label@],
                Err(e) => !self.labels_map().contains_key(label@) && e@ == msg_label_missing(
                    label@,
                ),
            }),
    {
        match self.labels.get(label.as_str()) {
            Some(i) => Ok(*i),
            None => {
                let mut m = String::new();
                m.append("Label ");
                m.append(label.as_str());
                m.append(" does not exist");
                proof {
                    assert(m@ =~= msg_label_missing(label@));
                }
                Err(VMError::new(m.as_str()))
            },
        }
    }

    /// Executes the single instruction at the counter, as `spec_step`
    /// describes: `Ok(None)` is an ordinary step, `Ok(Some(..))` a halt or a
    /// pause at a read instruction, and `Err` a runtime failure.
    #[verifier::loop_isolation(false)]
    #[verifier::rlimit(100)]
    fn step_once(&mut self) -> (r: Result<Option<RunSignal>, VMError>)
        requires
            old(self).wf(),
        ensures
            final(self).wf(),
            final(self).tokens() == old(self).tokens(),
            final(self).labels_map() == old(self).labels_map(),
            final(self).is_parsed() == old(self).is_parsed(),
            (match r {
                Ok(opt) => match opt {
                    None => spec_step(old(self).tokens(), old(self).labels_map(), old(self).state())
                        == StepRes::Next(final(self).state()),
                    Some(sig) => match sig {
                        RunSignal::Halted => spec_step(
                            old(self).tokens(),
                            old(self).labels_map(),
                            old(self).state(),
                        ) == StepRes::Halt(final(self).state()),
                        RunSignal::NeedChar => spec_step(
                            old(self).tokens(),
                            old(self).labels_map(),
                            old(self).state(),
                        ) == StepRes::Read(ReadKind::Chr, final(self).state()),
                        RunSignal::NeedInt => spec_step(
                            old(self).tokens(),
                            old(self).labels_map(),
                            old(self).state(),
                        ) == StepRes::Read(ReadKind::Num, final(self).state()),
                        RunSignal::Paused => false,
                    },
                },
                Err(e) => spec_step(old(self).tokens(), old(self).labels_map(), old(self).state())
                    == StepRes::Fail(e@, final(self).state()),
            }),
    {
        let ghost toks = self.tokens();
        let ghost labs = self.labels_map();
        let ghost pre = self.state();
        if self.pointer == self.collection.len() {
            proof {
                assert(spec_step(toks, labs, pre) == StepRes::Halt(pre));
            }
            return Ok(Some(RunSignal::Halted));
        }
        if self.pointer > self.collection.len() {
            let mut m = String::new();
            m.append("Program pointer out of range (at ");
            let num = usize_to_string(self.pointer);
            m.append(num.as_str());
            m.append(")");
            proof {
                assert(m@ =~= msg_pointer_range(pre.pc));
            }
            return Err(VMError::new(m.as_str()));
        }
        match &self.collection[self.pointer].token_type {
            TokenType::Command(CommandType::Push(n)) => {
                let v = *n;
                self.stack.push(v);
            },
            TokenType::Command(CommandType::Dup) => {
                let v = match self.get_stack(0) {
                    Ok(v) => v,
                    Err(e) => {
                        proof {
                            assert(spec_step(toks, labs, pre) == StepRes::Fail(
                                e@,
                                self.state(),
                            ));
                        }
                        return Err(e);
                    },
                };
                self.stack.push(v);
            },
            TokenType::Command(CommandType::Copy(n)) => {
                let nn = *n;
                if self.stack.len() == 0 {
                    let e = VMError::new("Stack is empty");
                    proof {
                        assert(spec_step(toks, labs, pre) == StepRes::Fail(e@, self.state()));
                    }
                    return Err(e);
                }
                if nn < 0 {
                    let e = VMError::new("Stack index out of bounds");
                    proof {
                        assert(spec_step(toks, labs, pre) == StepRes::Fail(e@, self.state()));
                    }
                    return Err(e);
                }
                let v = match self.get_stack(nn as usize) {
                    Ok(v) => v,
                    Err(e) => {
                        proof {
                            assert(spec_step(toks, labs, pre) == StepRes::Fail(
                                e@,
                                self.state(),
                            ));
                        }
                        return Err(e);
                    },
                };
                self.stack.push(v);
            },
            TokenType::Command(CommandType::Swap) => {
                let n1 = match self.pop_stack() {
                    Ok(v) => v,
                    Err(e) => {
                        proof {
                            assert(spec_step(toks, labs, pre) == StepRes::Fail(
                                e@,
                                self.state(),
                            ));
                        }
                        return Err(e);
                    },
                };
                let n2 = match self.pop_stack() {
                    Ok(v) => v,
                    Err(e) => {
                        proof {
                            assert(spec_step(toks, labs, pre) == StepRes::Fail(
                                e@,
                                self.state(),
                            ));
                        }
                        return Err(e);
                    },
                };
                self.stack.push(n1);
                self.stack.push(n2);
                proof {
                    assert(self.stack@ =~= pre.stack.take(pre.stack.len() - 2).push(n1).push(
                        n2,
                    ));
                }
            },
            TokenType::Command(CommandType::Disc) => {
                match self.pop_stack() {
                    Ok(_) => {},
                    Err(e) => {
                        proof {
                            assert(spec_step(toks, labs, pre) == StepRes::Fail(
                                e@,
                                self.state(),
                            ));
                        }
                        return Err(e);
                    },
                }
            },
            TokenType::Command(CommandType::Slide(n)) => {
                let nn = *n;
                let top = match self.pop_stack() {
                    Ok(v) => v,
                    Err(e) => {
                        proof {
                            assert(spec_step(toks, labs, pre) == StepRes::Fail(
                                e@,
                                self.state(),
                            ));
                        }
                        return Err(e);
                    },
                };
                let ghost rest = pre.stack.drop_last();
                proof {
                    assert(rest.take(rest.len() - 0) =~= rest);
                }
                let mut i: i32 = 0;
                while i < nn
                    invariant
                        0 <= i,
                        nn >= 0 ==> i <= nn,
                        nn < 0 ==> i == 0,
                        i <= rest.len(),
                        self.stack@ == rest.take(rest.len() - i),
                        self.tokens() == toks,
                        self.labels_map() == labs,
                        self.is_parsed() == old(self).is_parsed(),
                        self.wf(),
                        self.state() == (VmState { stack: rest.take(rest.len() - i), ..pre }),
                    decreases nn - i,
                {
                    match self.pop_stack() {
                        Ok(_) => {},
                        Err(e) => {
                            proof {
                                assert(rest.len() < nn);
                                assert(rest.take(rest.len() - i) =~= Seq::<i32>::empty());
                                assert(spec_step(toks, labs, pre) == StepRes::Fail(
                                    e@,
                                    self.state(),
                                ));
                            }
                            return Err(e);
                        },
                    }
                    proof {
                        assert(rest.take(rest.len() - i).drop_last() =~= rest.take(
                            rest.len() - i - 1,
                        ));
                    }
                    i = i + 1;
                }
                self.stack.push(top);
                proof {
                    if nn < 0 {
                        assert(rest.take(rest.len() - 0) =~= rest);
                    }
                }
            },
            TokenType::Command(CommandType::Add) => {
                let n1 = match self.pop_stack() {
                    Ok(v) => v,
                    Err(e) => {
                        proof {
                            assert(spec_step(toks, labs, pre) == StepRes::Fail(
                                e@,
                                self.state(),
                            ));
                        }
                        return Err(e);
                    },
                };
                let n2 = match self.pop_stack() {
                    Ok(v) => v,
                    Err(e) => {
                        proof {
                            assert(spec_step(toks, labs, pre) == StepRes::Fail(
                                e@,
                                self.state(),
                            ));
                        }
                        return Err(e);
                    },
                };
                self.stack.push(n2.wrapping_add(n1));
                proof {
                    assert(self.stack@ =~= pre.stack.take(pre.stack.len() - 2).push(
                        n2.wrapping_add(n1),
                    ));
                }
            },
            TokenType::Command(CommandType::Sub) => {
                let n1 = match self.pop_stack() {
                    Ok(v) => v,
                    Err(e) => {
                        proof {
                            assert(spec_step(toks, labs, pre) == StepRes::Fail(
                                e@,
                                self.state(),
                            ));
                        }
                        return Err(e);
                    },
                };
                let n2 = match self.pop_stack() {
                    Ok(v) => v,
                    Err(e) => {
                        proof {
                            assert(spec_step(toks, labs, pre) == StepRes::Fail(
                                e@,
                                self.state(),
                            ));
                        }
                        return Err(e);
                    },
                };
                self.stack.push(n2.wrapping_sub(n1));
                proof {
                    assert(self.stack@ =~= pre.stack.take(pre.stack.len() - 2).push(
                        n2.wrapping_sub(n1),
                    ));
                }
            },
            TokenType::Command(CommandType::Mult) => {
                let n1 = match self.pop_stack() {
                    Ok(v) => v,
                    Err(e) => {
                        proof {
                            assert(spec_step(toks, labs, pre) == StepRes::Fail(
                                e@,
                                self.state(),
                            ));
                        }
                        return Err(e);
                    },
                };
                let n2 = match self.pop_stack() {
                    Ok(v) => v,
                    Err(e) => {
                        proof {
                            assert(spec_step(toks, labs, pre) == StepRes::Fail(
                                e@,
                                self.state(),
                            ));
                        }
                        return Err(e);
                    },
                };
                self.stack.push(n2.wrapping_mul(n1));
                proof {
                    assert(self.stack@ =~= pre.stack.take(pre.stack.len() - 2).push(
                        n2.wrapping_mul(n1),
                    ));
                }
            },
            TokenType::Command(CommandType::IDiv) => {
                let n1 = match self.pop_stack() {
                    Ok(v) => v,
                    Err(e) => {
                        proof {
                            assert(spec_step(toks, labs, pre) == StepRes::Fail(
                                e@,
                                self.state(),
                            ));
                        }
                        return Err(e);
                    },
                };
                let n2 = match self.pop_stack() {
                    Ok(v) => v,
                    Err(e) => {
                        proof {
                            assert(spec_step(toks, labs, pre) == StepRes::Fail(
                                e@,
                                self.state(),
                            ));
                        }
                        return Err(e);
                    },
                };
                proof {
                    assert(self.stack@ =~= pre.stack.take(pre.stack.len() - 2));
                }
                match n2.checked_div(n1) {
                    Some(q) => {
                        self.stack.push(q);
                    },
                    None => {
                        let e = VMError::new("Fatal arithmetic error");
                        proof {
                            assert(spec_step(toks, labs, pre) == StepRes::Fail(
                                e@,
                                self.state(),
                            ));
                        }
                        return Err(e);
                    },
                }
            },
            TokenType::Command(CommandType::Mod) => {
                let n1 = match self.pop_stack() {
                    Ok(v) => v,
                    Err(e) => {
                        proof {
                            assert(spec_step(toks, labs, pre) == StepRes::Fail(
                                e@,
                                self.state(),
                            ));
                        }
                        return Err(e);
                    },
                };
                let n2 = match self.pop_stack() {
                    Ok(v) => v,
                    Err(e) => {
                        proof {
                            assert(spec_step(toks, labs, pre) == StepRes::Fail(
                                e@,
                                self.state(),
                            ));
                        }
                        return Err(e);
                    },
                };
                proof {
                    assert(self.stack@ =~= pre.stack.take(pre.stack.len() - 2));
                }
                match n2.checked_rem(n1) {
                    Some(q) => {
                        self.stack.push(q);
                    },
                    None => {
                        let e = VMError::new("Fatal arithmetic error");
                        proof {
                            assert(spec_step(toks, labs, pre) == StepRes::Fail(
                                e@,
                                self.state(),
                            ));
                        }
                        return Err(e);
                    },
                }
            },
            TokenType::Command(CommandType::Store) => {
                let n1 = match self.pop_stack() {
                    Ok(v) => v,
                    Err(e) => {
                        proof {
                            assert(spec_step(toks, labs, pre) == StepRes::Fail(
                                e@,
                                self.state(),
                            ));
                        }
                        return Err(e);
                    },
                };
                let n2 = match self.pop_stack() {
                    Ok(v) => v,
                    Err(e) => {
                        proof {
                            assert(spec_step(toks, labs, pre) == StepRes::Fail(
                                e@,
                                self.state(),
                            ));
                        }
                        return Err(e);
                    },
                };
                proof {
                    assert(self.stack@ =~= pre.stack.take(pre.stack.len() - 2));
                }
                if n2 < 0 {
                    let e = VMError::new("Heap index can not be negative");
                    proof {
                        assert(spec_step(toks, labs, pre) == StepRes::Fail(e@, self.state()));
                    }
                    return Err(e);
                }
                self.heap.insert(n2 as u32, n1);
            },
            TokenType::Command(CommandType::Retr) => {
                let n1 = match self.pop_stack() {
                    Ok(v) => v,
                    Err(e) => {
                        proof {
                            assert(spec_step(toks, labs, pre) == StepRes::Fail(
                                e@,
                                self.state(),
                            ));
                        }
                        return Err(e);
                    },
                };
                if n1 < 0 {
                    let e = VMError::new("Heap index can not be negative");
                    proof {
                        assert(spec_step(toks, labs, pre) == StepRes::Fail(e@, self.state()));
                    }
                    return Err(e);
                }
                let addr = n1 as u32;
                let existing: Option<i32> = match self.heap.get(&addr) {
                    Some(v) => Some(*v),
                    None => None,
                };
                match existing {
                    Some(v) => {
                        self.stack.push(v);
                    },
                    None => {
                        self.heap.insert(addr, 0);
                        self.stack.push(0);
                    },
                }
            },
            TokenType::Command(CommandType::Labl(_)) => {},
            TokenType::Command(CommandType::Call(label)) => {
                let l = label.clone();
                self.subroutine_stack.push(self.pointer);
                let idx = match self.get_label(&l) {
                    Ok(i) => i,
                    Err(e) => {
                        proof {
                            assert(spec_step(toks, labs, pre) == StepRes::Fail(
                                e@,
                                self.state(),
                            ));
                        }
                        return Err(e);
                    },
                };
                self.pointer = idx + 1;
                proof {
                    assert(spec_step(toks, labs, pre) == StepRes::Next(self.state()));
                }
                return Ok(None);
            },
            TokenType::Command(CommandType::Jump(label)) => {
                let l = label.clone();
                let idx = match self.get_label(&l) {
                    Ok(i) => i,
                    Err(e) => {
                        proof {
                            assert(spec_step(toks, labs, pre) == StepRes::Fail(
                                e@,
                                self.state(),
                            ));
                        }
                        return Err(e);
                    },
                };
                self.pointer = idx + 1;
                proof {
                    assert(spec_step(toks, labs, pre) == StepRes::Next(self.state()));
                }
                return Ok(None);
            },
            TokenType::Command(CommandType::JumpZ(label)) => {
                let l = label.clone();
                let v = match self.pop_stack() {
                    Ok(v) => v,
                    Err(e) => {
                        proof {
                            assert(spec_step(toks, labs, pre) == StepRes::Fail(
                                e@,
                                self.state(),
                            ));
                        }
                        return Err(e);
                    },
                };
                if v == 0 {
                    let idx = match self.get_label(&l) {
                        Ok(i) => i,
                        Err(e) => {
                            proof {
                                assert(spec_step(toks, labs, pre) == StepRes::Fail(
                                    e@,
                                    self.state(),
                                ));
                            }
                            return Err(e);
                        },
                    };
                    self.pointer = idx + 1;
                    proof {
                        assert(spec_step(toks, labs, pre) == StepRes::Next(self.state()));
                    }
                    return Ok(None);
                }
            },
            TokenType::Command(CommandType::JumpN(label)) => {
                let l = label.clone();
                let v = match self.pop_stack() {
                    Ok(v) => v,
                    Err(e) => {
                        proof {
                            assert(spec_step(toks, labs, pre) == StepRes::Fail(
                                e@,
                                self.state(),
                            ));
                        }
                        return Err(e);
                    },
                };
                if v < 0 {
                    let idx = match self.get_label(&l) {
                        Ok(i) => i,
                        Err(e) => {
                            proof {
                                assert(spec_step(toks, labs, pre) == StepRes::Fail(
                                    e@,
                                    self.state(),
                                ));
                            }
                            return Err(e);
                        },
                    };
                    self.pointer = idx + 1;
                    proof {
                        assert(spec_step(toks, labs, pre) == StepRes::Next(self.state()));
                    }
                    return Ok(None);
                }
            },
            TokenType::Command(CommandType::EndS) => {
                match self.subroutine_stack.pop() {
                    Some(addr) => {
                        self.pointer = addr + 1;
                    },
                    None => {
                        self.pointer = self.pointer + 1;
                    },
                }
                proof {
                    assert(self.subroutine_stack@ =~= pre.calls.drop_last() || pre.calls.len()
                        == 0);
                    assert(spec_step(toks, labs, pre) == StepRes::Next(self.state()));
                }
                return Ok(None);
            },
            TokenType::Command(CommandType::EndP) => {
                proof {
                    assert(spec_step(toks, labs, pre) == StepRes::Halt(pre));
                }
                return Ok(Some(RunSignal::Halted));
            },
            TokenType::Command(CommandType::OutC) => {
                let v = match self.pop_stack() {
                    Ok(v) => v,
                    Err(e) => {
                        proof {
                            assert(spec_step(toks, labs, pre) == StepRes::Fail(
                                e@,
                                self.state(),
                            ));
                        }
                        return Err(e);
                    },
                };
                self.output.push(OutItem::Chr(v));
            },
            TokenType::Command(CommandType::OutI) => {
                let v = match self.pop_stack() {
                    Ok(v) => v,
                    Err(e) => {
                        proof {
                            assert(spec_step(toks, labs, pre) == StepRes::Fail(
                                e@,
                                self.state(),
                            ));
                        }
                        return Err(e);
                    },
                };
                self.output.push(OutItem::Num(v));
            },
            TokenType::Command(CommandType::ReadC) => {
                let loc = match self.get_stack(0) {
                    Ok(v) => v,
                    Err(e) => {
                        proof {
                            assert(spec_step(toks, labs, pre) == StepRes::Fail(
                                e@,
                                self.state(),
                            ));
                        }
                        return Err(e);
                    },
                };
                if loc < 0 {
                    let e = VMError::new("Heap index can not be negative");
                    proof {
                        assert(spec_step(toks, labs, pre) == StepRes::Fail(e@, self.state()));
                    }
                    return Err(e);
                }
                proof {
                    assert(spec_step(toks, labs, pre) == StepRes::Read(ReadKind::Chr, pre));
                }
                return Ok(Some(RunSignal::NeedChar));
            },
            TokenType::Command(CommandType::ReadI) => {
                let loc = match self.get_stack(0) {
                    Ok(v) => v,
                    Err(e) => {
                        proof {
                            assert(spec_step(toks, labs, pre) == StepRes::Fail(
                                e@,
                                self.state(),
                            ));
                        }
                        return Err(e);
                    },
                };
                if loc < 0 {
                    let e = VMError::new("Heap index can not be negative");
                    proof {
                        assert(spec_step(toks, labs, pre) == StepRes::Fail(e@, self.state()));
                    }
                    return Err(e);
                }
                proof {
                    assert(spec_step(toks, labs, pre) == StepRes::Read(ReadKind::Num, pre));
                }
                return Ok(Some(RunSignal::NeedInt));
            },
            TokenType::Imp(_) => {
                let e = VMError::new("Invalid command");
                proof {
                    assert(spec_step(toks, labs, pre) == StepRes::Fail(e@, self.state()));
                }
                return Err(e);
            },
        }
        self.pointer = self.pointer + 1;
        proof {
            assert(spec_step(toks, labs, pre) == StepRes::Next(self.state()));
        }
        Ok(None)
    }

    /// Executes instructions from the current counter onward, as iterating
    /// `spec_step` describes, until the program halts (the counter reaches
    /// the end of the sequence or an end-program instruction runs), a read
    /// instruction needs input, an instruction fails, or `fuel` instructions
    /// have run. The machine is left exactly in the state the step relation
    /// assigns to that point; after a pause, calling again continues the
    /// same run.
    #[verifier::loop_isolation(false)]
    pub fn run(&mut self, fuel: u64) -> (r: Result<RunSignal, VMError>)
        requires
            old(self).wf(),
        ensures
            final(self).wf(),
            final(self).tokens() == old(self).tokens(),
            final(self).labels_map() == old(self).labels_map(),
            final(self).is_parsed() == old(self).is_parsed(),
            (match r {
                Ok(sig) => match sig {
                    RunSignal::Halted => exists|n: nat|
                        spec_run(old(self).tokens(), old(self).labels_map(), old(self).state(), n)
                            == StepRes::Halt(final(self).state()),
                    RunSignal::NeedChar => exists|n: nat|
                        spec_run(old(self).tokens(), old(self).labels_map(), old(self).state(), n)
                            == StepRes::Read(ReadKind::Chr, final(self).state()),
                    RunSignal::NeedInt => exists|n: nat|
                        spec_run(old(self).tokens(), old(self).labels_map(), old(self).state(), n)
                            == StepRes::Read(ReadKind::Num, final(self).state()),
                    RunSignal::Paused => spec_run(
                        old(self).tokens(),
                        old(self).labels_map(),
                        old(self).state(),
                        fuel as nat,
                    ) == StepRes::Next(final(self).state()),
                },
                Err(e) => exists|n: nat|
                    spec_run(old(self).tokens(), old(self).labels_map(), old(self).state(), n)
                        == StepRes::Fail(e@, final(self).state()),
            }),
    {
        let ghost toks = self.tokens();
        let ghost labs = self.labels_map();
        let ghost st0 = self.state();
        proof {
            assert(spec_run(toks, labs, st0, 0) == StepRes::Next(st0));
        }
        let mut budget: u64 = fuel;
        loop
            invariant
                self.wf(),
                self.tokens() == toks,
                self.labels_map() == labs,
                self.is_parsed() == old(self).is_parsed(),
                budget <= fuel,
                spec_run(toks, labs, st0, (fuel - budget) as nat) == StepRes::Next(self.state()),
            decreases budget,
        {
            if budget == 0 {
                return Ok(RunSignal::Paused);
            }
            let ghost k = (fuel - budget) as nat;
            budget = budget - 1;
            let ghost pre = self.state();
            proof {
                assert(spec_run(toks, labs, st0, k + 1) == spec_step(toks, labs, pre));
            }
            match self.step_once() {
                Ok(opt) => {
                    match opt {
                        None => {},
                        Some(sig) => {
                            match sig {
                                RunSignal::Halted => {
                                    return Ok(RunSignal::Halted);
                                },
                                RunSignal::NeedChar => {
                                    return Ok(RunSignal::NeedChar);
                                },
                                RunSignal::NeedInt => {
                                    return Ok(RunSignal::NeedInt);
                                },
                                RunSignal::Paused => {
                                    proof {
                                        assert(false);
                                    }
                                },
                            }
                        },
                    }
                },
                Err(e) => {
                    return Err(e);
                },
            }
        }
    }

    /// Completes a paused read-character instruction: stores the character's
    /// code at the address on top of the stack (which stays) and moves past
    /// the read. `None` reports that the input channel is exhausted and
    /// leaves the machine unchanged.
    pub fn supply_char(&mut self, input: Option<u8>) -> (r: Result<(), VMError>)
        requires
            old(self).wf(),
            spec_step(old(self).tokens(), old(self).labels_map(), old(self).state())
                == StepRes::Read(ReadKind::Chr, old(self).state()),
        ensures
            final(self).wf(),
            final(self).tokens() == old(self).tokens(),
            final(self).labels_map() == old(self).labels_map(),
            final(self).is_parsed() == old(self).is_parsed(),
            (match input {
                Some(b) => r is Ok && final(self).state() == spec_supply(
                    old(self).state(),
                    b as i32,
                ),
                None => r is Err && r->Err_0@ == "Could not read from user input"@ && *final(self)
                    == *old(self),
            }),
    {
        match input {
            None => Err(VMError::new("Could not read from user input")),
            Some(b) => {
                let loc = match self.get_stack(0) {
                    Ok(v) => v,
                    Err(_) => {
                        proof {
                            assert(false);
                        }
                        unreached()
                    },
                };
                proof {
                    assert(loc >= 0);
                    assert(self.pointer < self.collection@.len());
                }
                self.heap.insert(loc as u32, b as i32);
                let n = self.collection.len();
                if self.pointer < n {
                    self.pointer = self.pointer + 1;
                }
                Ok(())
            },
        }
    }

    /// Completes a paused read-integer instruction: parses the line as a
    /// 32-bit integer after stripping white space, and stores it at the
    /// address on top of the stack (which stays). `None` reports that the
    /// input channel is exhausted; an unparsable line is a runtime error
    /// naming the line. Both leave the machine unchanged.
    pub fn supply_int(&mut self, input: Option<String>) -> (r: Result<(), VMError>)
        requires
            old(self).wf(),
            spec_step(old(self).tokens(), old(self).labels_map(), old(self).state())
                == StepRes::Read(ReadKind::Num, old(self).state()),
        ensures
            final(self).wf(),
            final(self).tokens() == old(self).tokens(),
            final(self).labels_map() == old(self).labels_map(),
            final(self).is_parsed() == old(self).is_parsed(),
            input is None ==> (r is Err && r->Err_0@ == "Could not read from user input"@
                && *final(self) == *old(self)),
            (input matches Some(text) ==> (if is_int_literal(trim(text@)) {
                r is Ok && final(self).state() == spec_supply(
                    old(self).state(),
                    int_value(trim(text@)) as i32,
                )
            } else {
                r is Err && r->Err_0@ == "Could not read number "@ + text@
                    && *final(self) == *old(self)
            })),
    {
        match input {
            None => Err(VMError::new("Could not read from user input")),
            Some(text) => {
                match parse_int_text(text.as_str()) {
                    Some(num) => {
                        let loc = match self.get_stack(0) {
                            Ok(v) => v,
                            Err(_) => {
                                proof {
                                    assert(false);
                                }
                                unreached()
                            },
                        };
                        proof {
                            assert(loc >= 0);
                            assert(self.pointer < self.collection@.len());
                        }
                        self.heap.insert(loc as u32, num);
                        let n = self.collection.len();
                        if self.pointer < n {
                            self.pointer = self.pointer + 1;
                        }
                        Ok(())
                    },
                    None => {
                        let mut m = String::new();
                        m.append("Could not read number ");
                        m.append(text.as_str());
                        proof {
                            assert(m@ =~= "Could not read number "@ + text@);
                        }
                        Err(VMError::new(m.as_str()))
                    },
                }
            },
        }
    }

    /// The decoded instruction sequence, for inspection.
    pub fn program(&self) -> (v: &Vec<Token>)
        ensures
            tokens_view(v@) == self.tokens(),
    {
        &self.collection
    }

    /// The evaluation stack, bottom first, for inspection.
    pub fn stack_contents(&self) -> (v: &Vec<i32>)
        ensures
            v@ == self.state().stack,
    {
        &self.stack
    }

    /// The output accumulated so far, in order of production.
    pub fn output(&self) -> (v: &Vec<OutItem>)
        ensures
            v@ == self.state().output,
    {
        &self.output
    }
}

/// Decoding is repeatable: the decoded sequence is a function of the source
/// text alone, so any two decode passes over identical text yield identical
/// instruction sequences. `VirtualMachine::parse` ensures that its token
/// sequence equals `spec_decode` of its source, so two machines parsed from
/// identical sources hold identical programs.
pub proof fn lemma_decode_repeatable(
    s: Seq<char>,
    ptr: int,
    line: int,
    ts1: Seq<SpecToken>,
    ts2: Seq<SpecToken>,
)
    requires
        spec_decode(s, ptr, line) == DecodeAll::Toks(ts1),
        spec_decode(s, ptr, line) == DecodeAll::Toks(ts2),
    ensures
        ts1 == ts2,
{
}

/// A jump or call to a label absent from the table fails at the moment that
/// instruction executes, and not earlier: decoding and assembly never
/// consult the table (`spec_decode` and `spec_labels` are total), and the
/// failing step names the label. A call has already recorded its return
/// address when the lookup fails.
pub proof fn lemma_missing_label_fails_at_use(
    prog: Seq<SpecToken>,
    labels: Map<Seq<char>, usize>,
    st: VmState,
    name: Seq<char>,
)
    requires
        0 <= st.pc < prog.len(),
        !labels.contains_key(name),
    ensures
        prog[st.pc].token_type == SpecTokenType::Command(SpecCommand::Jump(name)) ==> spec_step(
            prog,
            labels,
            st,
        ) == StepRes::Fail(msg_label_missing(name), st),
        prog[st.pc].token_type == SpecTokenType::Command(SpecCommand::Call(name)) ==> spec_step(
            prog,
            labels,
            st,
        ) == StepRes::Fail(
            msg_label_missing(name),
            VmState { calls: st.calls.push(st.pc as usize), ..st },
        ),
{
}

/// Retrieving an address that was never stored does not fail: the step
/// stores zero at that address and pushes zero.
pub proof fn lemma_retrieve_unstored(
    prog: Seq<SpecToken>,
    labels: Map<Seq<char>, usize>,
    st: VmState,
    a: i32,
)
    requires
        0 <= st.pc < prog.len(),
        prog[st.pc].token_type == SpecTokenType::Command(SpecCommand::Retr),
        st.stack.len() > 0,
        st.stack.last() == a,
        a >= 0,
        !st.heap.dom().contains(a as u32),
    ensures
        spec_step(prog, labels, st) == StepRes::Next(
            VmState {
                stack: st.stack.drop_last().push(0),
                heap: st.heap.insert(a as u32, 0),
                pc: st.pc + 1,
                ..st
            },
        ),
{
}

/// Retrieving an address that holds a value pushes that value and leaves the
/// heap unchanged; after an auto-initializing read, the address holds zero,
/// so a second read of it behaves exactly as if zero had been stored there.
pub proof fn lemma_retrieve_stored(
    prog: Seq<SpecToken>,
    labels: Map<Seq<char>, usize>,
    st: VmState,
    a: i32,
)
    requires
        0 <= st.pc < prog.len(),
        prog[st.pc].token_type == SpecTokenType::Command(SpecCommand::Retr),
        st.stack.len() > 0,
        st.stack.last() == a,
        a >= 0,
        st.heap.dom().contains(a as u32),
    ensures
        spec_step(prog, labels, st) == StepRes::Next(
            VmState {
                stack: st.stack.drop_last().push(st.heap[a as u32]),
                pc: st.pc + 1,
                ..st
            },
        ),
{
}

/// A call records its own index and resumes at the instruction after the
/// label's marker.
pub proof fn lemma_call_enters_after_label(
    prog: Seq<SpecToken>,
    labels: Map<Seq<char>, usize>,
    st: VmState,
    name: Seq<char>,
)
    requires
        0 <= st.pc < prog.len(),
        prog[st.pc].token_type == SpecTokenType::Command(SpecCommand::Call(name)),
        labels.contains_key(name),
    ensures
        spec_step(prog, labels, st) == StepRes::Next(
            VmState { calls: st.calls.push(st.pc as usize), pc: labels[name] + 1, ..st },
        ),
{
}

/// An end-of-subroutine instruction with a recorded call site resumes at the
/// instruction immediately after that call, never at the call itself; with
/// an empty call stack it simply moves on.
pub proof fn lemma_end_subroutine_resumes_after_call(
    prog: Seq<SpecToken>,
    labels: Map<Seq<char>, usize>,
    st: VmState,
)
    requires
        0 <= st.pc < prog.len(),
        prog[st.pc].token_type == SpecTokenType::Command(SpecCommand::EndS),
    ensures
        st.calls.len() > 0 ==> spec_step(prog, labels, st) == StepRes::Next(
            VmState { calls: st.calls.drop_last(), pc: st.calls.last() + 1, ..st },
        ),
        st.calls.len() == 0 ==> spec_step(prog, labels, st) == StepRes::Next(
            VmState { pc: st.pc + 1, ..st },
        ),
{
}

} // verus!
