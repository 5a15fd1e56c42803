//! The decoder: turns the filtered whitespace character stream into a
//! sequence of instruction tokens.
//!
//! The functions `spec_read_imp`, `spec_read_command`, `spec_read_number`,
//! `spec_read_label` and their composition `spec_read_token` give the exact
//! mathematical account of one decoding step; `spec_decode` iterates it over
//! a whole character stream. Every method of [`Parser`] is proved to follow
//! these functions.

use vstd::prelude::*;
use vstd::pervasive::unreached;
use vstd::string::StringExecFns;

use crate::numbers::{bin_value, dec_str, push_char, usize_to_string};
use crate::parser_error::ParserError;
use crate::token::{
    CommandType, ImpType, Location, SpecCommand, SpecToken, SpecTokenType, Token, TokenType,
};

verus! {

/// Whether `c` is one of the three characters the language assigns meaning
/// to: space, tab, or linefeed.
pub open spec fn is_significant(c: char) -> bool {
    c == ' ' || c == '\t' || c == '\n'
}

/// The input as the decoder sees it: only the significant characters, in
/// order.
pub open spec fn filter_significant(s: Seq<char>) -> Seq<char>
    decreases s.len(),
{
    if s.len() == 0 {
        Seq::empty()
    } else {
        filter_significant(s.drop_last()) + (if is_significant(s.last()) {
            seq![s.last()]
        } else {
            Seq::empty()
        })
    }
}

proof fn lemma_filter_significant_all(s: Seq<char>)
    ensures
        filter_significant(s).len() <= s.len(),
        forall|i: int|
            0 <= i < filter_significant(s).len() ==> is_significant(
                #[trigger] filter_significant(s)[i],
            ),
    decreases s.len(),
{
    if s.len() > 0 {
        lemma_filter_significant_all(s.drop_last());
    }
}

/// The number of linefeeds in `s`: what the 1-based line counter adds while
/// consuming `s`.
pub open spec fn count_lines(s: Seq<char>) -> int
    decreases s.len(),
{
    if s.len() == 0 {
        0
    } else {
        count_lines(s.drop_last()) + (if s.last() == '\n' {
            1int
        } else {
            0int
        })
    }
}

proof fn lemma_count_lines_le(s: Seq<char>)
    ensures
        0 <= count_lines(s) <= s.len(),
    decreases s.len(),
{
    if s.len() > 0 {
        lemma_count_lines_le(s.drop_last());
    }
}

/// The length of the longest prefix of `s` made of spaces and tabs: the
/// characters that form number digits and label names.
pub open spec fn operand_prefix_len(s: Seq<char>) -> nat
    decreases s.len(),
{
    if s.len() > 0 && (s[0] == ' ' || s[0] == '\t') {
        1 + operand_prefix_len(s.drop_first())
    } else {
        0
    }
}

proof fn lemma_operand_prefix_le(s: Seq<char>)
    ensures
        operand_prefix_len(s) <= s.len(),
        forall|j: int| 0 <= j < operand_prefix_len(s) ==> (s[j] == ' ' || s[j] == '\t'),
        operand_prefix_len(s) < s.len() ==> !(s[operand_prefix_len(s) as int] == ' '
            || s[operand_prefix_len(s) as int] == '\t'),
    decreases s.len(),
{
    if s.len() > 0 && (s[0] == ' ' || s[0] == '\t') {
        let t = s.drop_first();
        lemma_operand_prefix_le(t);
        assert forall|j: int| 0 <= j < operand_prefix_len(s) implies (s[j] == ' ' || s[j]
            == '\t') by {
            if j >= 1 {
                assert(s[j] == t[j - 1]);
            }
        }
        if operand_prefix_len(s) < s.len() {
            assert(s[operand_prefix_len(s) as int] == t[operand_prefix_len(t) as int]);
        }
    }
}

proof fn lemma_operand_prefix_at(s: Seq<char>, d: int)
    requires
        0 <= d <= s.len(),
        forall|j: int| 0 <= j < d ==> (#[trigger] s[j] == ' ' || s[j] == '\t'),
        d < s.len() ==> !(s[d] == ' ' || s[d] == '\t'),
    ensures
        operand_prefix_len(s) == d,
    decreases d,
{
    if d == 0 {
    } else {
        let t = s.drop_first();
        assert(forall|j: int| 0 <= j < d - 1 ==> (#[trigger] t[j] == ' ' || t[j] == '\t'));
        lemma_operand_prefix_at(t, d - 1);
    }
}

/// The diagnostic for an unrecognized opcode-group prefix.
pub open spec fn msg_imp(line: int) -> Seq<char> {
    "Could not parse IMP on line "@ + dec_str(line)
}

/// The diagnostic for an unrecognized opcode within a group.
pub open spec fn msg_command(imp: ImpType, line: int) -> Seq<char> {
    match imp {
        ImpType::Stack => "Could not parse Stack command on line "@ + dec_str(line),
        ImpType::Arithmetic => "Could not parse Arithmetic command on line "@ + dec_str(line),
        ImpType::Heap => "Could not parse Heap command on line "@ + dec_str(line),
        ImpType::Flow => "Could not parse Flow command on line "@ + dec_str(line),
        ImpType::IO => "Could not parse IO command on line "@ + dec_str(line),
    }
}

/// The diagnostic for a number whose digits run past a significant
/// non-terminator character.
pub open spec fn msg_number_term(line: int) -> Seq<char> {
    "Number on line "@ + dec_str(line) + " did not terminate with a linefeed"@
}

/// The diagnostic for a binary literal that is empty or out of range.
pub open spec fn msg_number_parse(line: int) -> Seq<char> {
    "Unable to parse number on line "@ + dec_str(line)
}

/// The diagnostic for a label whose characters run past a significant
/// non-terminator character.
pub open spec fn msg_label_term(line: int) -> Seq<char> {
    "Label on line "@ + dec_str(line) + " did not terminate with a linefeed"@
}

/// The outcome of decoding a binary number operand from the front of a
/// stream.
pub enum NumStep {
    Num { v: int, consumed: int, new_line: int },
    Fail { msg: Seq<char>, consumed: int, new_line: int },
}

/// Decodes a binary number operand: a run of space (digit 0) and tab
/// (digit 1) characters, terminated by a linefeed. Fails when the input ends
/// first, when the run is empty, or when the value exceeds `i32::MAX`.
pub open spec fn spec_read_number(s: Seq<char>, line: int) -> NumStep {
    let d = operand_prefix_len(s) as int;
    if d == s.len() {
        NumStep::Fail {
            msg: "Source unexpectedly ended while parsing number"@,
            consumed: d,
            new_line: line,
        }
    } else if s[d] != '\n' {
        NumStep::Fail { msg: msg_number_term(line), consumed: d, new_line: line }
    } else if d == 0 || bin_value(s.take(d)) > i32::MAX {
        NumStep::Fail { msg: msg_number_parse(line + 1), consumed: d + 1, new_line: line + 1 }
    } else {
        NumStep::Num { v: bin_value(s.take(d)), consumed: d + 1, new_line: line + 1 }
    }
}

/// The outcome of decoding a label operand from the front of a stream.
pub enum LabStep {
    Lab { name: Seq<char>, consumed: int, new_line: int },
    Fail { msg: Seq<char>, consumed: int, new_line: int },
}

/// Decodes a label operand: a run of space and tab characters kept verbatim,
/// terminated by a linefeed. Fails when the input ends first.
pub open spec fn spec_read_label(s: Seq<char>, line: int) -> LabStep {
    let d = operand_prefix_len(s) as int;
    if d == s.len() {
        LabStep::Fail {
            msg: "Source unexpectedly ended while parsing label"@,
            consumed: d,
            new_line: line,
        }
    } else if s[d] != '\n' {
        LabStep::Fail { msg: msg_label_term(line), consumed: d, new_line: line }
    } else {
        LabStep::Lab { name: s.take(d), consumed: d + 1, new_line: line + 1 }
    }
}

/// The outcome of decoding an opcode-group prefix.
pub enum ImpStep {
    Imp { imp: ImpType, consumed: int, new_line: int },
    Fail { msg: Seq<char>, consumed: int, new_line: int },
}

/// Decodes the opcode-group prefix: space selects the stack group, linefeed
/// the control-flow group, and tab followed by space, tab or linefeed the
/// arithmetic, heap and I/O groups respectively.
pub open spec fn spec_read_imp(s: Seq<char>, line: int) -> ImpStep {
    if s.len() == 0 {
        ImpStep::Fail { msg: msg_imp(line), consumed: 0, new_line: line }
    } else if s[0] == ' ' {
        ImpStep::Imp { imp: ImpType::Stack, consumed: 1, new_line: line }
    } else if s[0] == '\n' {
        ImpStep::Imp { imp: ImpType::Flow, consumed: 1, new_line: line + 1 }
    } else if s[0] == '\t' {
        if s.len() == 1 {
            ImpStep::Fail { msg: msg_imp(line), consumed: 1, new_line: line }
        } else if s[1] == ' ' {
            ImpStep::Imp { imp: ImpType::Arithmetic, consumed: 2, new_line: line }
        } else if s[1] == '\t' {
            ImpStep::Imp { imp: ImpType::Heap, consumed: 2, new_line: line }
        } else if s[1] == '\n' {
            ImpStep::Imp { imp: ImpType::IO, consumed: 2, new_line: line + 1 }
        } else {
            ImpStep::Fail { msg: msg_imp(line), consumed: 1, new_line: line }
        }
    } else {
        ImpStep::Fail { msg: msg_imp(line), consumed: 1, new_line: line }
    }
}

/// The outcome of decoding the rest of an instruction after its group
/// prefix: a complete token, its consumed length, and the line counter after
/// it.
pub enum CmdStep {
    Tok { token: SpecToken, consumed: int, new_line: int },
    Fail { msg: Seq<char>, consumed: int, new_line: int },
}

pub open spec fn loc_at(start: int, end: int, line: int) -> Location {
    Location { start: start as usize, end: end as usize, line: line as usize }
}

pub open spec fn cmd_token(c: SpecCommand, start: int, end: int, line: int) -> SpecToken {
    SpecToken { token_type: SpecTokenType::Command(c), location: loc_at(start, end, line) }
}

/// The unrecognized-opcode failure for group `imp` at the front of `s`: the
/// decoder consumes one character, its forward-progress guarantee.
pub open spec fn cmd_fail(imp: ImpType, s: Seq<char>, line: int) -> CmdStep {
    CmdStep::Fail {
        msg: msg_command(imp, line),
        consumed: if s.len() > 0 {
            1int
        } else {
            0int
        },
        new_line: line + (if s.len() > 0 && s[0] == '\n' {
            1int
        } else {
            0int
        }),
    }
}

/// Decodes a stack-group opcode and its operand, if any. `s` is the stream
/// after the group prefix, `ptr` the offset of `s` in the filtered input and
/// `line` the line counter there.
pub open spec fn spec_stack_command(s: Seq<char>, ptr: int, line: int) -> CmdStep {
    if s.len() == 0 {
        cmd_fail(ImpType::Stack, s, line)
    } else if s[0] == ' ' {
        match spec_read_number(s.skip(1), line) {
            NumStep::Num { v, consumed, new_line } => CmdStep::Tok {
                token: cmd_token(SpecCommand::Push(v), ptr, ptr + 1, line),
                consumed: 1 + consumed,
                new_line,
            },
            NumStep::Fail { msg, consumed, new_line } => CmdStep::Fail {
                msg,
                consumed: 1 + consumed,
                new_line,
            },
        }
    } else if s[0] == '\n' {
        if s.len() == 1 {
            cmd_fail(ImpType::Stack, s, line)
        } else if s[1] == ' ' {
            CmdStep::Tok {
                token: cmd_token(SpecCommand::Dup, ptr, ptr + 2, line),
                consumed: 2,
                new_line: line + 1,
            }
        } else if s[1] == '\t' {
            CmdStep::Tok {
                token: cmd_token(SpecCommand::Swap, ptr, ptr + 2, line),
                consumed: 2,
                new_line: line + 1,
            }
        } else if s[1] == '\n' {
            CmdStep::Tok {
                token: cmd_token(SpecCommand::Disc, ptr, ptr + 2, line),
                consumed: 2,
                new_line: line + 2,
            }
        } else {
            cmd_fail(ImpType::Stack, s, line)
        }
    } else if s[0] == '\t' {
        if s.len() == 1 {
            cmd_fail(ImpType::Stack, s, line)
        } else if s[1] == ' ' {
            match spec_read_number(s.skip(2), line) {
                NumStep::Num { v, consumed, new_line } => CmdStep::Tok {
                    token: cmd_token(SpecCommand::Copy(v), ptr, ptr + 2, line),
                    consumed: 2 + consumed,
                    new_line,
                },
                NumStep::Fail { msg, consumed, new_line } => CmdStep::Fail {
                msg,
                consumed: 2 + consumed,
                new_line,
            },
            }
        } else if s[1] == '\n' {
            match spec_read_number(s.skip(2), line + 1) {
                NumStep::Num { v, consumed, new_line } => CmdStep::Tok {
                    token: cmd_token(SpecCommand::Slide(v), ptr, ptr + 2, line),
                    consumed: 2 + consumed,
                    new_line,
                },
                NumStep::Fail { msg, consumed, new_line } => CmdStep::Fail {
                msg,
                consumed: 2 + consumed,
                new_line,
            },
            }
        } else {
            cmd_fail(ImpType::Stack, s, line)
        }
    } else {
        cmd_fail(ImpType::Stack, s, line)
    }
}

/// Decodes an arithmetic-group opcode.
pub open spec fn spec_arith_command(s: Seq<char>, ptr: int, line: int) -> CmdStep {
    if s.len() == 0 {
        cmd_fail(ImpType::Arithmetic, s, line)
    } else if s[0] == ' ' {
        if s.len() == 1 {
            cmd_fail(ImpType::Arithmetic, s, line)
        } else if s[1] == ' ' {
            CmdStep::Tok {
                token: cmd_token(SpecCommand::Add, ptr, ptr + 2, line),
                consumed: 2,
                new_line: line,
            }
        } else if s[1] == '\t' {
            CmdStep::Tok {
                token: cmd_token(SpecCommand::Sub, ptr, ptr + 2, line),
                consumed: 2,
                new_line: line,
            }
        } else if s[1] == '\n' {
            CmdStep::Tok {
                token: cmd_token(SpecCommand::Mult, ptr, ptr + 2, line),
                consumed: 2,
                new_line: line + 1,
            }
        } else {
            cmd_fail(ImpType::Arithmetic, s, line)
        }
    } else if s[0] == '\t' {
        if s.len() == 1 {
            cmd_fail(ImpType::Arithmetic, s, line)
        } else if s[1] == ' ' {
            CmdStep::Tok {
                token: cmd_token(SpecCommand::IDiv, ptr, ptr + 2, line),
                consumed: 2,
                new_line: line,
            }
        } else if s[1] == '\t' {
            CmdStep::Tok {
                token: cmd_token(SpecCommand::Mod, ptr, ptr + 2, line),
                consumed: 2,
                new_line: line,
            }
        } else {
            cmd_fail(ImpType::Arithmetic, s, line)
        }
    } else {
        cmd_fail(ImpType::Arithmetic, s, line)
    }
}

/// Decodes a heap-group opcode: a single character.
pub open spec fn spec_heap_command(s: Seq<char>, ptr: int, line: int) -> CmdStep {
    if s.len() == 0 {
        cmd_fail(ImpType::Heap, s, line)
    } else if s[0] == ' ' {
        CmdStep::Tok {
            token: cmd_token(SpecCommand::Store, ptr, ptr + 1, line),
            consumed: 1,
            new_line: line,
        }
    } else if s[0] == '\t' {
        CmdStep::Tok {
            token: cmd_token(SpecCommand::Retr, ptr, ptr + 1, line),
            consumed: 1,
            new_line: line,
        }
    } else {
        cmd_fail(ImpType::Heap, s, line)
    }
}

/// Decodes a control-flow-group opcode and its label operand, if any.
pub open spec fn spec_flow_command(s: Seq<char>, ptr: int, line: int) -> CmdStep {
    if s.len() == 0 {
        cmd_fail(ImpType::Flow, s, line)
    } else if s[0] == ' ' {
        if s.len() == 1 {
            cmd_fail(ImpType::Flow, s, line)
        } else if s[1] == ' ' {
            match spec_read_label(s.skip(2), line) {
                LabStep::Lab { name, consumed, new_line } => CmdStep::Tok {
                    token: cmd_token(SpecCommand::Labl(name), ptr, ptr + 2, line),
                    consumed: 2 + consumed,
                    new_line,
                },
                LabStep::Fail { msg, consumed, new_line } => CmdStep::Fail {
                    msg,
                    consumed: 2 + consumed,
                    new_line,
                },
            }
        } else if s[1] == '\t' {
            match spec_read_label(s.skip(2), line) {
                LabStep::Lab { name, consumed, new_line } => CmdStep::Tok {
                    token: cmd_token(SpecCommand::Call(name), ptr, ptr + 2, line),
                    consumed: 2 + consumed,
                    new_line,
                },
                LabStep::Fail { msg, consumed, new_line } => CmdStep::Fail {
                    msg,
                    consumed: 2 + consumed,
                    new_line,
                },
            }
        } else if s[1] == '\n' {
            match spec_read_label(s.skip(2), line + 1) {
                LabStep::Lab { name, consumed, new_line } => CmdStep::Tok {
                    token: cmd_token(SpecCommand::Jump(name), ptr, ptr + 2, line),
                    consumed: 2 + consumed,
                    new_line,
                },
                LabStep::Fail { msg, consumed, new_line } => CmdStep::Fail {
                    msg,
                    consumed: 2 + consumed,
                    new_line,
                },
            }
        } else {
            cmd_fail(ImpType::Flow, s, line)
        }
    } else if s[0] == '\t' {
        if s.len() == 1 {
            cmd_fail(ImpType::Flow, s, line)
        } else if s[1] == ' ' {
            match spec_read_label(s.skip(2), line) {
                LabStep::Lab { name, consumed, new_line } => CmdStep::Tok {
                    token: cmd_token(SpecCommand::JumpZ(name), ptr, ptr + 2, line),
                    consumed: 2 + consumed,
                    new_line,
                },
                LabStep::Fail { msg, consumed, new_line } => CmdStep::Fail {
                    msg,
                    consumed: 2 + consumed,
                    new_line,
                },
            }
        } else if s[1] == '\t' {
            match spec_read_label(s.skip(2), line) {
                LabStep::Lab { name, consumed, new_line } => CmdStep::Tok {
                    token: cmd_token(SpecCommand::JumpN(name), ptr, ptr + 2, line),
                    consumed: 2 + consumed,
                    new_line,
                },
                LabStep::Fail { msg, consumed, new_line } => CmdStep::Fail {
                    msg,
                    consumed: 2 + consumed,
                    new_line,
                },
            }
        } else if s[1] == '\n' {
            CmdStep::Tok {
                token: cmd_token(SpecCommand::EndS, ptr, ptr + 2, line),
                consumed: 2,
                new_line: line + 1,
            }
        } else {
            cmd_fail(ImpType::Flow, s, line)
        }
    } else if s[0] == '\n' {
        if s.len() >= 2 && s[1] == '\n' {
            CmdStep::Tok {
                token: cmd_token(SpecCommand::EndP, ptr, ptr + 2, line),
                consumed: 2,
                new_line: line + 2,
            }
        } else {
            cmd_fail(ImpType::Flow, s, line)
        }
    } else {
        cmd_fail(ImpType::Flow, s, line)
    }
}

/// Decodes an I/O-group opcode.
pub open spec fn spec_io_command(s: Seq<char>, ptr: int, line: int) -> CmdStep {
    if s.len() == 0 {
        cmd_fail(ImpType::IO, s, line)
    } else if s[0] == ' ' {
        if s.len() == 1 {
            cmd_fail(ImpType::IO, s, line)
        } else if s[1] == ' ' {
            CmdStep::Tok {
                token: cmd_token(SpecCommand::OutC, ptr, ptr + 2, line),
                consumed: 2,
                new_line: line,
            }
        } else if s[1] == '\t' {
            CmdStep::Tok {
                token: cmd_token(SpecCommand::OutI, ptr, ptr + 2, line),
                consumed: 2,
                new_line: line,
            }
        } else {
            cmd_fail(ImpType::IO, s, line)
        }
    } else if s[0] == '\t' {
        if s.len() == 1 {
            cmd_fail(ImpType::IO, s, line)
        } else if s[1] == ' ' {
            CmdStep::Tok {
                token: cmd_token(SpecCommand::ReadC, ptr, ptr + 2, line),
                consumed: 2,
                new_line: line,
            }
        } else if s[1] == '\t' {
            CmdStep::Tok {
                token: cmd_token(SpecCommand::ReadI, ptr, ptr + 2, line),
                consumed: 2,
                new_line: line,
            }
        } else {
            cmd_fail(ImpType::IO, s, line)
        }
    } else {
        cmd_fail(ImpType::IO, s, line)
    }
}

/// Decodes the rest of an instruction, dispatching on its group.
pub open spec fn spec_read_command(imp: ImpType, s: Seq<char>, ptr: int, line: int) -> CmdStep {
    match imp {
        ImpType::Stack => spec_stack_command(s, ptr, line),
        ImpType::Arithmetic => spec_arith_command(s, ptr, line),
        ImpType::Heap => spec_heap_command(s, ptr, line),
        ImpType::Flow => spec_flow_command(s, ptr, line),
        ImpType::IO => spec_io_command(s, ptr, line),
    }
}

/// The outcome of decoding one complete instruction.
pub enum TokenStep {
    Tok { token: SpecToken, consumed: int, new_line: int },
    Fail { msg: Seq<char>, consumed: int, new_line: int },
}

/// Decodes one complete instruction from the front of `s`: the group prefix,
/// then the opcode and operand. `ptr` is the offset of `s` in the filtered
/// input and `line` the line counter there.
pub open spec fn spec_read_token(s: Seq<char>, ptr: int, line: int) -> TokenStep {
    match spec_read_imp(s, line) {
        ImpStep::Fail { msg, consumed, new_line } => TokenStep::Fail { msg, consumed, new_line },
        ImpStep::Imp { imp, consumed, new_line } => {
            match spec_read_command(imp, s.skip(consumed), ptr + consumed, new_line) {
                CmdStep::Fail { msg, consumed: cc, new_line: l2 } => TokenStep::Fail {
                    msg,
                    consumed: consumed + cc,
                    new_line: l2,
                },
                CmdStep::Tok { token, consumed: cc, new_line: l2 } => TokenStep::Tok {
                    token,
                    consumed: consumed + cc,
                    new_line: l2,
                },
            }
        },
    }
}

/// Decoding one instruction always makes forward progress and never
/// overruns the input: on success or failure alike, between one (when any
/// input remains) and all of the remaining characters are consumed.
pub proof fn lemma_read_token_consumed(s: Seq<char>, ptr: int, line: int)
    ensures
        (match spec_read_token(s, ptr, line) {
            TokenStep::Tok { consumed, .. } => 1 <= consumed <= s.len(),
            TokenStep::Fail { consumed, .. } => (if s.len() == 0 {
                consumed == 0
            } else {
                1 <= consumed <= s.len()
            }),
        }),
{
    if s.len() >= 1 {
        lemma_operand_prefix_le(s.skip(1));
    }
    if s.len() >= 2 {
        lemma_operand_prefix_le(s.skip(2));
        lemma_operand_prefix_le(s.skip(1).skip(1));
    }
    if s.len() >= 3 {
        lemma_operand_prefix_le(s.skip(1).skip(2));
    }
}

/// The outcome of decoding a whole character stream.
pub enum DecodeAll {
    Toks(Seq<SpecToken>),
    Fail { msg: Seq<char> },
}

/// Decodes instructions from `s` until it is exhausted, or fails with the
/// first decode error. `ptr` and `line` are the offset and line counter at
/// the front of `s`.
pub open spec fn spec_decode(s: Seq<char>, ptr: int, line: int) -> DecodeAll
    decreases s.len(),
    via spec_decode_decreases
{
    if s.len() == 0 {
        DecodeAll::Toks(Seq::empty())
    } else {
        match spec_read_token(s, ptr, line) {
            TokenStep::Fail { msg, .. } => DecodeAll::Fail { msg },
            TokenStep::Tok { token, consumed, new_line } => {
                match spec_decode(s.skip(consumed), ptr + consumed, new_line) {
                    DecodeAll::Toks(rest) => DecodeAll::Toks(seq![token] + rest),
                    DecodeAll::Fail { msg } => DecodeAll::Fail { msg },
                }
            },
        }
    }
}

#[via_fn]
proof fn spec_decode_decreases(s: Seq<char>, ptr: int, line: int) {
    lemma_read_token_consumed(s, ptr, line);
}

/// The instructions decoded before the first failure: the whole sequence
/// when decoding succeeds, and the successfully decoded prefix when it does
/// not.
pub open spec fn spec_decode_prefix(s: Seq<char>, ptr: int, line: int) -> Seq<SpecToken>
    decreases s.len(),
    via spec_decode_prefix_decreases
{
    if s.len() == 0 {
        Seq::empty()
    } else {
        match spec_read_token(s, ptr, line) {
            TokenStep::Fail { .. } => Seq::empty(),
            TokenStep::Tok { token, consumed, new_line } => seq![token] + spec_decode_prefix(
                s.skip(consumed),
                ptr + consumed,
                new_line,
            ),
        }
    }
}

#[via_fn]
proof fn spec_decode_prefix_decreases(s: Seq<char>, ptr: int, line: int) {
    lemma_read_token_consumed(s, ptr, line);
}

/// The character cursor and decoder over the filtered input.
pub struct Parser {
    chars: Vec<char>,
    pointer: usize,
    line: usize,
}

impl Parser {
    /// The whole filtered input.
    pub closed spec fn all_chars(&self) -> Seq<char> {
        self.chars@
    }

    /// The characters not yet consumed.
    pub closed spec fn remaining(&self) -> Seq<char> {
        self.chars@.skip(self.pointer as int)
    }

    /// The number of characters consumed so far.
    pub closed spec fn spec_pointer(&self) -> int {
        self.pointer as int
    }

    /// The 1-based line counter: one more than the linefeeds consumed.
    pub closed spec fn spec_line(&self) -> int {
        self.line as int
    }

    /// Validity: the cursor is within bounds, every character is
    /// significant, and the line counter agrees with the consumed prefix.
    pub closed spec fn wf(&self) -> bool {
        &&& self.pointer <= self.chars@.len()
        &&& self.chars@.len() < usize::MAX
        &&& forall|i: int|
            0 <= i < self.chars@.len() ==> is_significant(#[trigger] self.chars@[i])
        &&& self.line as int == 1 + count_lines(self.chars@.take(self.pointer as int))
    }

    /// Filters the source down to its significant characters and places the
    /// cursor at the start, on line 1.
    pub fn new(source: String) -> (p: Parser)
        requires
            source@.len() < usize::MAX,
        ensures
            p.wf(),
            p.all_chars() == filter_significant(source@),
            p.remaining() == filter_significant(source@),
            p.spec_pointer() == 0,
            p.spec_line() == 1,
    {
        let n = source.as_str().unicode_len();
        let mut chars: Vec<char> = Vec::new();
        let mut i: usize = 0;
        while i < n
            invariant
                n == source@.len(),
                n < usize::MAX,
                i <= n,
                chars@.len() <= i,
                chars@ =~= filter_significant(source@.take(i as int)),
            decreases n - i,
        {
            let c = source.as_str().get_char(i);
            proof {
                assert(source@.take(i + 1).drop_last() =~= source@.take(i as int));
                assert(source@.take(i + 1).last() == source@[i as int]);
            }
            if c == ' ' || c == '\t' || c == '\n' {
                chars.push(c);
            }
            i = i + 1;
        }
        proof {
            assert(source@.take(n as int) =~= source@);
            lemma_filter_significant_all(source@);
        }
        let p = Parser { chars, pointer: 0, line: 1 };
        proof {
            assert(p.remaining() =~= p.all_chars());
            assert(p.all_chars().take(0) =~= Seq::<char>::empty());
        }
        p
    }

    /// The current character, without consuming it.
    fn read_char(&self) -> (c: Option<char>)
        requires
            self.wf(),
        ensures
            c == (if self.remaining().len() > 0 {
                Some(self.remaining()[0])
            } else {
                None::<char>
            }),
    {
        if self.pointer < self.chars.len() {
            Some(self.chars[self.pointer])
        } else {
            None
        }
    }

    /// The character `amount` positions ahead of the cursor, without
    /// consuming anything.
    fn peek_char(&self, amount: usize) -> (c: Option<char>)
        requires
            self.wf(),
        ensures
            c == (if amount < self.remaining().len() {
                Some(self.remaining()[amount as int])
            } else {
                None::<char>
            }),
    {
        if amount < self.chars.len() - self.pointer {
            Some(self.chars[self.pointer + amount])
        } else {
            None
        }
    }

    /// Consumes the current character, if any, advancing the line counter on
    /// a linefeed.
    fn consume_char(&mut self) -> (c: Option<char>)
        requires
            old(self).wf(),
        ensures
            final(self).wf(),
            final(self).all_chars() == old(self).all_chars(),
            c == (if old(self).remaining().len() > 0 {
                Some(old(self).remaining()[0])
            } else {
                None::<char>
            }),
            old(self).remaining().len() > 0 ==> {
                &&& final(self).spec_pointer() == old(self).spec_pointer() + 1
                &&& final(self).remaining() == old(self).remaining().skip(1)
                &&& final(self).spec_line() == old(self).spec_line() + (
                if old(self).remaining()[0] == '\n' {
                    1int
                } else {
                    0int
                })
            },
            old(self).remaining().len() == 0 ==> *final(self) == *old(self),
    {
        let res = self.read_char();
        if self.pointer < self.chars.len() {
            proof {
                assert(self.chars@.take(self.pointer + 1).drop_last() =~= self.chars@.take(
                    self.pointer as int,
                ));
                assert(self.chars@.take(self.pointer + 1).last() == self.chars@[
                    self.pointer as int]);
                lemma_count_lines_le(self.chars@.take(self.pointer as int));
            }
            let c = self.chars[self.pointer];
            if c == '\n' {
                self.line = self.line + 1;
            }
            self.pointer = self.pointer + 1;
            proof {
                assert(self.remaining() =~= old(self).remaining().skip(1));
            }
        }
        res
    }

    /// Consumes exactly two characters.
    fn advance2(&mut self)
        requires
            old(self).wf(),
            old(self).remaining().len() >= 2,
        ensures
            final(self).wf(),
            final(self).all_chars() == old(self).all_chars(),
            final(self).spec_pointer() == old(self).spec_pointer() + 2,
            final(self).remaining() == old(self).remaining().skip(2),
            final(self).spec_line() == old(self).spec_line() + (
            if old(self).remaining()[0] == '\n' {
                1int
            } else {
                0int
            }) + (if old(self).remaining()[1] == '\n' {
                1int
            } else {
                0int
            }),
    {
        self.consume_char();
        self.consume_char();
        proof {
            assert(old(self).remaining().skip(1).skip(1) =~= old(self).remaining().skip(2));
            assert(old(self).remaining().skip(1)[0] == old(self).remaining()[1]);
        }
    }

    /// Builds the diagnostic text `prefix`, the decimal of `line`, then
    /// `suffix`.
    fn line_message(prefix: &str, line: usize, suffix: &str) -> (m: String)
        ensures
            m@ == prefix@ + dec_str(line as int) + suffix@,
    {
        let mut m = String::new();
        m.append(prefix);
        let num = usize_to_string(line);
        m.append(num.as_str());
        m.append(suffix);
        proof {
            assert(m@ =~= prefix@ + dec_str(line as int) + suffix@);
        }
        m
    }

    /// Decodes the opcode-group prefix, as `spec_read_imp` describes,
    /// consuming one extra character on failure.
    fn read_imp(&mut self) -> (r: Result<Token, ParserError>)
        requires
            old(self).wf(),
        ensures
            final(self).wf(),
            final(self).all_chars() == old(self).all_chars(),
            (match spec_read_imp(old(self).remaining(), old(self).spec_line()) {
                ImpStep::Imp { imp, consumed, new_line } => {
                    &&& r is Ok
                    &&& r->Ok_0.token_type == TokenType::Imp(imp)
                    &&& final(self).spec_pointer() == old(self).spec_pointer() + consumed
                    &&& final(self).spec_line() == new_line
                    &&& final(self).remaining() == old(self).remaining().skip(consumed)
                },
                ImpStep::Fail { msg, consumed, new_line } => {
                    &&& r is Err
                    &&& r->Err_0@ == msg
                    &&& final(self).spec_pointer() == old(self).spec_pointer() + consumed
                    &&& final(self).spec_line() == new_line
                    &&& final(self).remaining() == old(self).remaining().skip(consumed)
                },
            }),
    {
        match self.read_char() {
            Some(' ') => {
                let tok = Token {
                    token_type: TokenType::Imp(ImpType::Stack),
                    location: Location {
                        start: self.pointer,
                        end: self.pointer + 1,
                        line: self.line,
                    },
                };
                self.consume_char();
                Ok(tok)
            },
            Some('\n') => {
                let tok = Token {
                    token_type: TokenType::Imp(ImpType::Flow),
                    location: Location {
                        start: self.pointer,
                        end: self.pointer + 1,
                        line: self.line,
                    },
                };
                self.consume_char();
                Ok(tok)
            },
            Some('\t') => {
                match self.peek_char(1) {
                    Some(' ') => {
                        let tok = Token {
                            token_type: TokenType::Imp(ImpType::Arithmetic),
                            location: Location {
                                start: self.pointer,
                                end: self.pointer + 2,
                                line: self.line,
                            },
                        };
                        self.advance2();
                        Ok(tok)
                    },
                    Some('\t') => {
                        let tok = Token {
                            token_type: TokenType::Imp(ImpType::Heap),
                            location: Location {
                                start: self.pointer,
                                end: self.pointer + 2,
                                line: self.line,
                            },
                        };
                        self.advance2();
                        Ok(tok)
                    },
                    Some('\n') => {
                        let tok = Token {
                            token_type: TokenType::Imp(ImpType::IO),
                            location: Location {
                                start: self.pointer,
                                end: self.pointer + 2,
                                line: self.line,
                            },
                        };
                        self.advance2();
                        Ok(tok)
                    },
                    _ => {
                        let m = Self::line_message("Could not parse IMP on line ", self.line, "");
                        proof {
                            reveal_strlit("");
                            assert(m@ =~= msg_imp(old(self).spec_line()));
                        }
                        let e = ParserError::new(m.as_str());
                        self.consume_char();
                        Err(e)
                    },
                }
            },
            _ => {
                let m = Self::line_message("Could not parse IMP on line ", self.line, "");
                proof {
                    reveal_strlit("");
                    assert(m@ =~= msg_imp(old(self).spec_line()));
                }
                let e = ParserError::new(m.as_str());
                self.consume_char();
                proof {
                    if old(self).remaining().len() == 0 {
                        assert(old(self).remaining().skip(0) =~= old(self).remaining());
                    }
                }
                Err(e)
            },
        }
    }

    /// Builds the unrecognized-opcode diagnostic for `imp_type` and consumes
    /// one character, the decoder's forward-progress guarantee on failure.
    fn command_error(&mut self, imp_type: ImpType) -> (e: ParserError)
        requires
            old(self).wf(),
        ensures
            final(self).wf(),
            final(self).all_chars() == old(self).all_chars(),
            e@ == msg_command(imp_type, old(self).spec_line()),
            final(self).spec_pointer() == old(self).spec_pointer() + (
            if old(self).remaining().len() > 0 {
                1int
            } else {
                0int
            }),
            final(self).spec_line() == old(self).spec_line() + (
            if old(self).remaining().len() > 0 && old(self).remaining()[0] == '\n' {
                1int
            } else {
                0int
            }),
            final(self).remaining() == old(self).remaining().skip(
                if old(self).remaining().len() > 0 {
                    1int
                } else {
                    0int
                },
            ),
    {
        let prefix = match imp_type {
            ImpType::Stack => "Could not parse Stack command on line ",
            ImpType::Arithmetic => "Could not parse Arithmetic command on line ",
            ImpType::Heap => "Could not parse Heap command on line ",
            ImpType::Flow => "Could not parse Flow command on line ",
            ImpType::IO => "Could not parse IO command on line ",
        };
        let m = Self::line_message(prefix, self.line, "");
        proof {
            reveal_strlit("");
            assert(m@ =~= msg_command(imp_type, old(self).spec_line()));
        }
        let e = ParserError::new(m.as_str());
        self.consume_char();
        proof {
            if old(self).remaining().len() == 0 {
                assert(old(self).remaining().skip(0) =~= old(self).remaining());
            }
        }
        e
    }

    /// Decodes a binary number operand, as `spec_read_number` describes.
    fn read_number(&mut self) -> (r: Result<i32, ParserError>)
        requires
            old(self).wf(),
        ensures
            final(self).wf(),
            final(self).all_chars() == old(self).all_chars(),
            (match spec_read_number(old(self).remaining(), old(self).spec_line()) {
                NumStep::Num { v, consumed, new_line } => {
                    &&& r is Ok
                    &&& r->Ok_0 as int == v
                    &&& final(self).spec_pointer() == old(self).spec_pointer() + consumed
                    &&& final(self).spec_line() == new_line
                    &&& final(self).remaining() == old(self).remaining().skip(consumed)
                },
                NumStep::Fail { msg, consumed, new_line } => {
                    &&& r is Err
                    &&& r->Err_0@ == msg
                    &&& final(self).spec_pointer() == old(self).spec_pointer() + consumed
                    &&& final(self).spec_line() == new_line
                    &&& final(self).remaining() == old(self).remaining().skip(consumed)
                },
            }),
    {
        let ghost s0 = self.remaining();
        let ghost p0 = self.spec_pointer();
        let ghost l0 = self.spec_line();
        let ghost ac = self.all_chars();
        let mut val: u32 = 0;
        let mut overflow = false;
        let mut d: usize = 0;
        let mut scanning = true;
        while scanning
            invariant
                self.wf(),
                self.all_chars() == ac,
                s0 == ac.skip(p0),
                s0.len() < usize::MAX,
                d <= s0.len(),
                self.spec_pointer() == p0 + d,
                self.spec_line() == l0,
                self.remaining() == s0.skip(d as int),
                forall|j: int| 0 <= j < d ==> (#[trigger] s0[j] == ' ' || s0[j] == '\t'),
                !overflow ==> val as int == bin_value(s0.take(d as int)) && val
                    <= 2147483647u32,
                overflow ==> bin_value(s0.take(d as int)) > i32::MAX,
                !scanning ==> (d == s0.len() || !(s0[d as int] == ' ' || s0[d as int] == '\t')),
            decreases s0.len() - d + (if scanning {
                1int
            } else {
                0int
            }),
        {
            match self.read_char() {
                Some(c) => {
                    if c == ' ' || c == '\t' {
                        proof {
                            assert(s0.take(d + 1).drop_last() =~= s0.take(d as int));
                            assert(s0.take(d + 1).last() == s0[d as int]);
                        }
                        let bit: u32 = if c == '\t' {
                            1
                        } else {
                            0
                        };
                        if !overflow {
                            if val > (2147483647u32 - bit) / 2 {
                                overflow = true;
                            } else {
                                val = 2 * val + bit;
                            }
                        }
                        self.consume_char();
                        d = d + 1;
                    } else {
                        scanning = false;
                    }
                },
                None => {
                    scanning = false;
                },
            }
        }
        proof {
            lemma_operand_prefix_at(s0, d as int);
        }
        match self.read_char() {
            Some(c) => {
                if c != '\n' {
                    let m = Self::line_message(
                        "Number on line ",
                        self.line,
                        " did not terminate with a linefeed",
                    );
                    return Err(ParserError::new(m.as_str()));
                }
                self.consume_char();
            },
            None => {
                return Err(ParserError::new("Source unexpectedly ended while parsing number"));
            },
        }
        proof {
            assert(s0.skip(d as int).skip(1) =~= s0.skip(d + 1));
        }
        if !overflow && d > 0 {
            Ok(val as i32)
        } else {
            let m = Self::line_message("Unable to parse number on line ", self.line, "");
            proof {
                reveal_strlit("");
                assert(m@ =~= msg_number_parse(l0 + 1));
            }
            Err(ParserError::new(m.as_str()))
        }
    }

    /// Decodes a label operand, as `spec_read_label` describes.
    fn read_label(&mut self) -> (r: Result<String, ParserError>)
        requires
            old(self).wf(),
        ensures
            final(self).wf(),
            final(self).all_chars() == old(self).all_chars(),
            (match spec_read_label(old(self).remaining(), old(self).spec_line()) {
                LabStep::Lab { name, consumed, new_line } => {
                    &&& r is Ok
                    &&& r->Ok_0@ == name
                    &&& final(self).spec_pointer() == old(self).spec_pointer() + consumed
                    &&& final(self).spec_line() == new_line
                    &&& final(self).remaining() == old(self).remaining().skip(consumed)
                },
                LabStep::Fail { msg, consumed, new_line } => {
                    &&& r is Err
                    &&& r->Err_0@ == msg
                    &&& final(self).spec_pointer() == old(self).spec_pointer() + consumed
                    &&& final(self).spec_line() == new_line
                    &&& final(self).remaining() == old(self).remaining().skip(consumed)
                },
            }),
    {
        let ghost s0 = self.remaining();
        let ghost p0 = self.spec_pointer();
        let ghost l0 = self.spec_line();
        let ghost ac = self.all_chars();
        let mut label = String::new();
        let mut d: usize = 0;
        let mut scanning = true;
        while scanning
            invariant
                self.wf(),
                self.all_chars() == ac,
                s0 == ac.skip(p0),
                s0.len() < usize::MAX,
                d <= s0.len(),
                self.spec_pointer() == p0 + d,
                self.spec_line() == l0,
                self.remaining() == s0.skip(d as int),
                forall|j: int| 0 <= j < d ==> (#[trigger] s0[j] == ' ' || s0[j] == '\t'),
                label@ =~= s0.take(d as int),
                !scanning ==> (d == s0.len() || !(s0[d as int] == ' ' || s0[d as int] == '\t')),
            decreases s0.len() - d + (if scanning {
                1int
            } else {
                0int
            }),
        {
            match self.read_char() {
                Some(c) => {
                    if c == ' ' || c == '\t' {
                        proof {
                            assert(s0.take(d + 1).drop_last() =~= s0.take(d as int));
                            assert(s0.take(d + 1).last() == s0[d as int]);
                        }
                        push_char(&mut label, c);
                        self.consume_char();
                        d = d + 1;
                        proof {
                            assert(label@ =~= s0.take(d as int));
                        }
                    } else {
                        scanning = false;
                    }
                },
                None => {
                    scanning = false;
                },
            }
        }
        proof {
            lemma_operand_prefix_at(s0, d as int);
        }
        match self.read_char() {
            Some(c) => {
                if c != '\n' {
                    let m = Self::line_message(
                        "Label on line ",
                        self.line,
                        " did not terminate with a linefeed",
                    );
                    return Err(ParserError::new(m.as_str()));
                }
                self.consume_char();
            },
            None => {
                return Err(ParserError::new("Source unexpectedly ended while parsing label"));
            },
        }
        proof {
            assert(s0.skip(d as int).skip(1) =~= s0.skip(d + 1));
        }
        Ok(label)
    }

    /// Decodes the opcode and operand of an instruction whose group prefix
    /// has already been consumed, as `spec_read_command` describes.
    #[verifier::rlimit(100)]
    fn read_command(&mut self, imp_type: ImpType) -> (r: Result<Token, ParserError>)
        requires
            old(self).wf(),
        ensures
            final(self).wf(),
            final(self).all_chars() == old(self).all_chars(),
            (match spec_read_command(
                imp_type,
                old(self).remaining(),
                old(self).spec_pointer(),
                old(self).spec_line(),
            ) {
                CmdStep::Tok { token, consumed, new_line } => {
                    &&& r is Ok
                    &&& r->Ok_0@ == token
                    &&& final(self).spec_pointer() == old(self).spec_pointer() + consumed
                    &&& final(self).spec_line() == new_line
                    &&& final(self).remaining() == old(self).remaining().skip(consumed)
                },
                CmdStep::Fail { msg, consumed, new_line } => {
                    &&& r is Err
                    &&& r->Err_0@ == msg
                    &&& final(self).spec_pointer() == old(self).spec_pointer() + consumed
                    &&& final(self).spec_line() == new_line
                    &&& final(self).remaining() == old(self).remaining().skip(consumed)
                },
            }),
    {
        match imp_type {
            ImpType::Stack => {
                match self.read_char() {
                    Some(' ') => {
                        let loc = Location {
                            start: self.pointer,
                            end: self.pointer + 1,
                            line: self.line,
                        };
                        self.consume_char();
                        match self.read_number() {
                            Ok(n) => Ok(
                                Token {
                                    token_type: TokenType::Command(CommandType::Push(n)),
                                    location: loc,
                                },
                            ),
                            Err(e) => Err(e),
                        }
                    },
                    Some('\n') => {
                        match self.peek_char(1) {
                            Some(' ') => {
                                let loc = Location {
                                    start: self.pointer,
                                    end: self.pointer + 2,
                                    line: self.line,
                                };
                                self.advance2();
                                Ok(
                                    Token {
                                        token_type: TokenType::Command(CommandType::Dup),
                                        location: loc,
                                    },
                                )
                            },
                            Some('\t') => {
                                let loc = Location {
                                    start: self.pointer,
                                    end: self.pointer + 2,
                                    line: self.line,
                                };
                                self.advance2();
                                Ok(
                                    Token {
                                        token_type: TokenType::Command(CommandType::Swap),
                                        location: loc,
                                    },
                                )
                            },
                            Some('\n') => {
                                let loc = Location {
                                    start: self.pointer,
                                    end: self.pointer + 2,
                                    line: self.line,
                                };
                                self.advance2();
                                Ok(
                                    Token {
                                        token_type: TokenType::Command(CommandType::Disc),
                                        location: loc,
                                    },
                                )
                            },
                            _ => Err(self.command_error(ImpType::Stack)),
                        }
                    },
                    Some('\t') => {
                        match self.peek_char(1) {
                            Some(' ') => {
                                let loc = Location {
                                    start: self.pointer,
                                    end: self.pointer + 2,
                                    line: self.line,
                                };
                                self.advance2();
                                match self.read_number() {
                                    Ok(n) => Ok(
                                        Token {
                                            token_type: TokenType::Command(CommandType::Copy(n)),
                                            location: loc,
                                        },
                                    ),
                                    Err(e) => Err(e),
                                }
                            },
                            Some('\n') => {
                                let loc = Location {
                                    start: self.pointer,
                                    end: self.pointer + 2,
                                    line: self.line,
                                };
                                self.advance2();
                                match self.read_number() {
                                    Ok(n) => Ok(
                                        Token {
                                            token_type: TokenType::Command(CommandType::Slide(n)),
                                            location: loc,
                                        },
                                    ),
                                    Err(e) => Err(e),
                                }
                            },
                            _ => Err(self.command_error(ImpType::Stack)),
                        }
                    },
                    _ => Err(self.command_error(ImpType::Stack)),
                }
            },
            ImpType::Arithmetic => {
                match self.read_char() {
                    Some(' ') => {
                        match self.peek_char(1) {
                            Some(' ') => {
                                let loc = Location {
                                    start: self.pointer,
                                    end: self.pointer + 2,
                                    line: self.line,
                                };
                                self.advance2();
                                Ok(
                                    Token {
                                        token_type: TokenType::Command(CommandType::Add),
                                        location: loc,
                                    },
                                )
                            },
                            Some('\t') => {
                                let loc = Location {
                                    start: self.pointer,
                                    end: self.pointer + 2,
                                    line: self.line,
                                };
                                self.advance2();
                                Ok(
                                    Token {
                                        token_type: TokenType::Command(CommandType::Sub),
                                        location: loc,
                                    },
                                )
                            },
                            Some('\n') => {
                                let loc = Location {
                                    start: self.pointer,
                                    end: self.pointer + 2,
                                    line: self.line,
                                };
                                self.advance2();
                                Ok(
                                    Token {
                                        token_type: TokenType::Command(CommandType::Mult),
                                        location: loc,
                                    },
                                )
                            },
                            _ => Err(self.command_error(ImpType::Arithmetic)),
                        }
                    },
                    Some('\t') => {
                        match self.peek_char(1) {
                            Some(' ') => {
                                let loc = Location {
                                    start: self.pointer,
                                    end: self.pointer + 2,
                                    line: self.line,
                                };
                                self.advance2();
                                Ok(
                                    Token {
                                        token_type: TokenType::Command(CommandType::IDiv),
                                        location: loc,
                                    },
                                )
                            },
                            Some('\t') => {
                                let loc = Location {
                                    start: self.pointer,
                                    end: self.pointer + 2,
                                    line: self.line,
                                };
                                self.advance2();
                                Ok(
                                    Token {
                                        token_type: TokenType::Command(CommandType::Mod),
                                        location: loc,
                                    },
                                )
                            },
                            _ => Err(self.command_error(ImpType::Arithmetic)),
                        }
                    },
                    _ => Err(self.command_error(ImpType::Arithmetic)),
                }
            },
            ImpType::Heap => {
                match self.read_char() {
                    Some(' ') => {
                        let loc = Location {
                            start: self.pointer,
                            end: self.pointer + 1,
                            line: self.line,
                        };
                        self.consume_char();
                        Ok(
                            Token {
                                token_type: TokenType::Command(CommandType::Store),
                                location: loc,
                            },
                        )
                    },
                    Some('\t') => {
                        let loc = Location {
                            start: self.pointer,
                            end: self.pointer + 1,
                            line: self.line,
                        };
                        self.consume_char();
                        Ok(
                            Token {
                                token_type: TokenType::Command(CommandType::Retr),
                                location: loc,
                            },
                        )
                    },
                    _ => Err(self.command_error(ImpType::Heap)),
                }
            },
            ImpType::Flow => {
                match self.read_char() {
                    Some(' ') => {
                        match self.peek_char(1) {
                            Some(' ') => {
                                let loc = Location {
                                    start: self.pointer,
                                    end: self.pointer + 2,
                                    line: self.line,
                                };
                                self.advance2();
                                match self.read_label() {
                                    Ok(label) => Ok(
                                        Token {
                                            token_type: TokenType::Command(
                                                CommandType::Labl(label),
                                            ),
                                            location: loc,
                                        },
                                    ),
                                    Err(e) => Err(e),
                                }
                            },
                            Some('\t') => {
                                let loc = Location {
                                    start: self.pointer,
                                    end: self.pointer + 2,
                                    line: self.line,
                                };
                                self.advance2();
                                match self.read_label() {
                                    Ok(label) => Ok(
                                        Token {
                                            token_type: TokenType::Command(
                                                CommandType::Call(label),
                                            ),
                                            location: loc,
                                        },
                                    ),
                                    Err(e) => Err(e),
                                }
                            },
                            Some('\n') => {
                                let loc = Location {
                                    start: self.pointer,
                                    end: self.pointer + 2,
                                    line: self.line,
                                };
                                self.advance2();
                                match self.read_label() {
                                    Ok(label) => Ok(
                                        Token {
                                            token_type: TokenType::Command(
                                                CommandType::Jump(label),
                                            ),
                                            location: loc,
                                        },
                                    ),
                                    Err(e) => Err(e),
                                }
                            },
                            _ => Err(self.command_error(ImpType::Flow)),
                        }
                    },
                    Some('\t') => {
                        match self.peek_char(1) {
                            Some(' ') => {
                                let loc = Location {
                                    start: self.pointer,
                                    end: self.pointer + 2,
                                    line: self.line,
                                };
                                self.advance2();
                                match self.read_label() {
                                    Ok(label) => Ok(
                                        Token {
                                            token_type: TokenType::Command(
                                                CommandType::JumpZ(label),
                                            ),
                                            location: loc,
                                        },
                                    ),
                                    Err(e) => Err(e),
                                }
                            },
                            Some('\t') => {
                                let loc = Location {
                                    start: self.pointer,
                                    end: self.pointer + 2,
                                    line: self.line,
                                };
                                self.advance2();
                                match self.read_label() {
                                    Ok(label) => Ok(
                                        Token {
                                            token_type: TokenType::Command(
                                                CommandType::JumpN(label),
                                            ),
                                            location: loc,
                                        },
                                    ),
                                    Err(e) => Err(e),
                                }
                            },
                            Some('\n') => {
                                let loc = Location {
                                    start: self.pointer,
                                    end: self.pointer + 2,
                                    line: self.line,
                                };
                                self.advance2();
                                Ok(
                                    Token {
                                        token_type: TokenType::Command(CommandType::EndS),
                                        location: loc,
                                    },
                                )
                            },
                            _ => Err(self.command_error(ImpType::Flow)),
                        }
                    },
                    Some('\n') => {
                        match self.peek_char(1) {
                            Some('\n') => {
                                let loc = Location {
                                    start: self.pointer,
                                    end: self.pointer + 2,
                                    line: self.line,
                                };
                                self.advance2();
                                Ok(
                                    Token {
                                        token_type: TokenType::Command(CommandType::EndP),
                                        location: loc,
                                    },
                                )
                            },
                            _ => Err(self.command_error(ImpType::Flow)),
                        }
                    },
                    _ => Err(self.command_error(ImpType::Flow)),
                }
            },
            ImpType::IO => {
                match self.read_char() {
                    Some(' ') => {
                        match self.peek_char(1) {
                            Some(' ') => {
                                let loc = Location {
                                    start: self.pointer,
                                    end: self.pointer + 2,
                                    line: self.line,
                                };
                                self.advance2();
                                Ok(
                                    Token {
                                        token_type: TokenType::Command(CommandType::OutC),
                                        location: loc,
                                    },
                                )
                            },
                            Some('\t') => {
                                let loc = Location {
                                    start: self.pointer,
                                    end: self.pointer + 2,
                                    line: self.line,
                                };
                                self.advance2();
                                Ok(
                                    Token {
                                        token_type: TokenType::Command(CommandType::OutI),
                                        location: loc,
                                    },
                                )
                            },
                            _ => Err(self.command_error(ImpType::IO)),
                        }
                    },
                    Some('\t') => {
                        match self.peek_char(1) {
                            Some(' ') => {
                                let loc = Location {
                                    start: self.pointer,
                                    end: self.pointer + 2,
                                    line: self.line,
                                };
                                self.advance2();
                                Ok(
                                    Token {
                                        token_type: TokenType::Command(CommandType::ReadC),
                                        location: loc,
                                    },
                                )
                            },
                            Some('\t') => {
                                let loc = Location {
                                    start: self.pointer,
                                    end: self.pointer + 2,
                                    line: self.line,
                                };
                                self.advance2();
                                Ok(
                                    Token {
                                        token_type: TokenType::Command(CommandType::ReadI),
                                        location: loc,
                                    },
                                )
                            },
                            _ => Err(self.command_error(ImpType::IO)),
                        }
                    },
                    _ => Err(self.command_error(ImpType::IO)),
                }
            },
        }
    }

    /// Decodes one complete instruction, as `spec_read_token` describes: the
    /// group prefix, then the opcode and its operand.
    pub fn read_token(&mut self) -> (r: Result<Token, ParserError>)
        requires
            old(self).wf(),
        ensures
            final(self).wf(),
            final(self).all_chars() == old(self).all_chars(),
            (match spec_read_token(
                old(self).remaining(),
                old(self).spec_pointer(),
                old(self).spec_line(),
            ) {
                TokenStep::Tok { token, consumed, new_line } => {
                    &&& r is Ok
                    &&& r->Ok_0@ == token
                    &&& final(self).spec_pointer() == old(self).spec_pointer() + consumed
                    &&& final(self).spec_line() == new_line
                    &&& final(self).remaining() == old(self).remaining().skip(consumed)
                },
                TokenStep::Fail { msg, consumed, new_line } => {
                    &&& r is Err
                    &&& r->Err_0@ == msg
                    &&& final(self).spec_pointer() == old(self).spec_pointer() + consumed
                    &&& final(self).spec_line() == new_line
                    &&& final(self).remaining() == old(self).remaining().skip(consumed)
                },
            }),
    {
        let ghost s0 = self.remaining();
        let imp_tok = match self.read_imp() {
            Ok(t) => t,
            Err(e) => {
                return Err(e);
            },
        };
        match imp_tok.token_type {
            TokenType::Imp(imp_type) => {
                let r = self.read_command(imp_type);
                proof {
                    if let ImpStep::Imp { imp, consumed, new_line } = spec_read_imp(
                        s0,
                        old(self).spec_line(),
                    ) {
                        assert(s0.skip(consumed).skip(
                            (match spec_read_command(
                                imp,
                                s0.skip(consumed),
                                old(self).spec_pointer() + consumed,
                                new_line,
                            ) {
                                CmdStep::Tok { consumed: cc, .. } => cc,
                                CmdStep::Fail { consumed: cc, .. } => cc,
                            }),
                        ) =~= s0.skip(
                            consumed + (match spec_read_command(
                                imp,
                                s0.skip(consumed),
                                old(self).spec_pointer() + consumed,
                                new_line,
                            ) {
                                CmdStep::Tok { consumed: cc, .. } => cc,
                                CmdStep::Fail { consumed: cc, .. } => cc,
                            }),
                        ));
                    }
                }
                r
            },
            _ => {
                proof {
                    assert(false);
                }
                unreached()
            },
        }
    }

    /// Whether all input has been consumed.
    pub fn is_end(&self) -> (r: bool)
        requires
            self.wf(),
        ensures
            r == (self.remaining().len() == 0),
    {
        self.pointer >= self.chars.len()
    }
}

/// A number operand whose digit run never reaches a linefeed before the
/// input ends is a decode failure with the unexpected-end diagnostic: here,
/// for a push instruction followed only by digit characters. The whole run
/// is consumed, so the cursor stands at the end of the input afterwards.
pub proof fn lemma_number_unterminated(s: Seq<char>, ptr: int, line: int)
    requires
        s.len() >= 2,
        s[0] == ' ',
        s[1] == ' ',
        forall|j: int| 2 <= j < s.len() ==> (#[trigger] s[j] == ' ' || s[j] == '\t'),
    ensures
        spec_read_token(s, ptr, line) == (TokenStep::Fail {
            msg: "Source unexpectedly ended while parsing number"@,
            consumed: s.len() as int,
            new_line: line,
        }),
{
    let rest = s.skip(1).skip(1);
    assert(forall|j: int| 0 <= j < rest.len() ==> (#[trigger] rest[j] == ' ' || rest[j] == '\t'));
    lemma_operand_prefix_at(rest, rest.len() as int);
}

} // verus!
