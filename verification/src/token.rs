//! Instruction tokens produced by the decoder, together with their
//! mathematical views used in contracts.

use vstd::prelude::*;

verus! {

/// The opcode group selected by the first one or two characters of an
/// instruction.
#[derive(Debug, PartialEq, Eq, Clone, Copy)]
pub enum ImpType {
    Stack,
    Arithmetic,
    Heap,
    Flow,
    IO,
}

/// A fully decoded instruction, with its operand already resolved.
#[derive(Debug, PartialEq, Clone)]
pub enum CommandType {
    Push(i32),
    Dup,
    Copy(i32),
    Swap,
    Disc,
    Slide(i32),
    Add,
    Sub,
    Mult,
    IDiv,
    Mod,
    Store,
    Retr,
    Labl(String),
    Call(String),
    Jump(String),
    JumpZ(String),
    JumpN(String),
    EndS,
    EndP,
    OutC,
    OutI,
    ReadC,
    ReadI,
}

/// Either a bare opcode-group marker or a complete instruction.
#[derive(Debug, PartialEq, Clone)]
pub enum TokenType {
    Imp(ImpType),
    Command(CommandType),
}

/// The source span of a token: offsets into the filtered character stream
/// and the 1-based source line on which the token starts.
#[derive(Debug, PartialEq, Eq, Clone, Copy)]
pub struct Location {
    pub start: usize,
    pub end: usize,
    pub line: usize,
}

/// A decoded token together with its source span.
#[derive(Debug, PartialEq, Clone)]
pub struct Token {
    pub token_type: TokenType,
    pub location: Location,
}

/// The mathematical value of a [`CommandType`]: operands become `int` and
/// label names become character sequences.
pub enum SpecCommand {
    Push(int),
    Dup,
    Copy(int),
    Swap,
    Disc,
    Slide(int),
    Add,
    Sub,
    Mult,
    IDiv,
    Mod,
    Store,
    Retr,
    Labl(Seq<char>),
    Call(Seq<char>),
    Jump(Seq<char>),
    JumpZ(Seq<char>),
    JumpN(Seq<char>),
    EndS,
    EndP,
    OutC,
    OutI,
    ReadC,
    ReadI,
}

/// The mathematical value of a [`TokenType`].
pub enum SpecTokenType {
    Imp(ImpType),
    Command(SpecCommand),
}

/// The mathematical value of a [`Token`].
pub struct SpecToken {
    pub token_type: SpecTokenType,
    pub location: Location,
}

impl View for CommandType {
    type V = SpecCommand;

    open spec fn view(&self) -> SpecCommand {
        match self {
            CommandType::Push(n) => SpecCommand::Push(*n as int),
            CommandType::Dup => SpecCommand::Dup,
            CommandType::Copy(n) => SpecCommand::Copy(*n as int),
            CommandType::Swap => SpecCommand::Swap,
            CommandType::Disc => SpecCommand::Disc,
            CommandType::Slide(n) => SpecCommand::Slide(*n as int),
            CommandType::Add => SpecCommand::Add,
            CommandType::Sub => SpecCommand::Sub,
            CommandType::Mult => SpecCommand::Mult,
            CommandType::IDiv => SpecCommand::IDiv,
            CommandType::Mod => SpecCommand::Mod,
            CommandType::Store => SpecCommand::Store,
            CommandType::Retr => SpecCommand::Retr,
            CommandType::Labl(s) => SpecCommand::Labl(s@),
            CommandType::Call(s) => SpecCommand::Call(s@),
            CommandType::Jump(s) => SpecCommand::Jump(s@),
            CommandType::JumpZ(s) => SpecCommand::JumpZ(s@),
            CommandType::JumpN(s) => SpecCommand::JumpN(s@),
            CommandType::EndS => SpecCommand::EndS,
            CommandType::EndP => SpecCommand::EndP,
            CommandType::OutC => SpecCommand::OutC,
            CommandType::OutI => SpecCommand::OutI,
            CommandType::ReadC => SpecCommand::ReadC,
            CommandType::ReadI => SpecCommand::ReadI,
        }
    }
}

impl View for TokenType {
    type V = SpecTokenType;

    open spec fn view(&self) -> SpecTokenType {
        match self {
            TokenType::Imp(i) => SpecTokenType::Imp(*i),
            TokenType::Command(c) => SpecTokenType::Command(c@),
        }
    }
}

impl View for Token {
    type V = SpecToken;

    open spec fn view(&self) -> SpecToken {
        SpecToken { token_type: self.token_type@, location: self.location }
    }
}

/// The views of a decoded token sequence, element by element.
pub open spec fn tokens_view(ts: Seq<Token>) -> Seq<SpecToken> {
    ts.map_values(|t: Token| t@)
}

} // verus!
