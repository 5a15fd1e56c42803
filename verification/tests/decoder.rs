use whitespace_vm::parser::Parser;
use whitespace_vm::token::{CommandType, Location, TokenType};
use whitespace_vm::virtual_machine::VirtualMachine;

fn bin(n: u32) -> String {
    let mut s = String::new();
    if n == 0 {
        s.push(' ');
        return s;
    }
    let mut digs: Vec<u32> = Vec::new();
    let mut m = n;
    while m > 0 {
        digs.push(m % 2);
        m /= 2;
    }
    for d in digs.iter().rev() {
        s.push(if *d == 1 { '\t' } else { ' ' });
    }
    s
}

fn push_cmd(n: u32) -> String {
    format!("  {}\n", bin(n))
}

#[test]
fn push_decodes_space_space_tab_linefeed_as_one() {
    let mut p = Parser::new("  \t\n".to_string());
    let tok = p.read_token().expect("push should decode");
    assert_eq!(tok.token_type, TokenType::Command(CommandType::Push(1)));
    assert!(p.is_end());
}

#[test]
fn push_token_location() {
    let mut p = Parser::new("  \t\n".to_string());
    let tok = p.read_token().unwrap();
    assert_eq!(
        tok.location,
        Location {
            start: 1,
            end: 2,
            line: 1
        }
    );
}

#[test]
fn push_zero_decodes() {
    let mut p = Parser::new(push_cmd(0));
    let tok = p.read_token().unwrap();
    assert_eq!(tok.token_type, TokenType::Command(CommandType::Push(0)));
}

#[test]
fn push_larger_number_decodes() {
    let mut p = Parser::new(push_cmd(1_000_000));
    let tok = p.read_token().unwrap();
    assert_eq!(
        tok.token_type,
        TokenType::Command(CommandType::Push(1_000_000))
    );
}

#[test]
fn insignificant_characters_are_discarded() {
    let mut p = Parser::new("x \rxx \tyy\r\n".to_string());
    let tok = p.read_token().unwrap();
    assert_eq!(tok.token_type, TokenType::Command(CommandType::Push(1)));
    assert!(p.is_end());
}

#[test]
fn number_without_linefeed_fails_unexpectedly_ended() {
    let mut p = Parser::new("   \t".to_string());
    let err = p.read_token().expect_err("must fail");
    assert_eq!(
        err.message(),
        "Source unexpectedly ended while parsing number"
    );
    assert!(p.is_end(), "the digit run is consumed before the failure");
}

#[test]
fn empty_number_fails_to_parse() {
    let mut p = Parser::new("  \n".to_string());
    let err = p.read_token().expect_err("must fail");
    assert_eq!(err.message(), "Unable to parse number on line 2");
    assert!(p.is_end(), "the terminator is consumed before the failure");
}

#[test]
fn number_over_i32_max_fails_to_parse() {
    let mut src = String::from("  ");
    for _ in 0..32 {
        src.push('\t');
    }
    src.push('\n');
    let mut p = Parser::new(src);
    let err = p.read_token().expect_err("must fail");
    assert_eq!(err.message(), "Unable to parse number on line 2");
}

#[test]
fn label_without_linefeed_fails_unexpectedly_ended() {
    let mut p = Parser::new("\n   ".to_string());
    let err = p.read_token().expect_err("must fail");
    assert_eq!(
        err.message(),
        "Source unexpectedly ended while parsing label"
    );
}

#[test]
fn lone_tab_fails_as_imp_and_consumes_it() {
    let mut p = Parser::new("\t".to_string());
    let err = p.read_token().expect_err("must fail");
    assert_eq!(err.message(), "Could not parse IMP on line 1");
    assert!(p.is_end(), "failure still consumes one character");
}

#[test]
fn lone_stack_imp_fails_as_stack_command() {
    let mut p = Parser::new(" ".to_string());
    let err = p.read_token().expect_err("must fail");
    assert_eq!(err.message(), "Could not parse Stack command on line 1");
    assert!(p.is_end());
}

#[test]
fn lone_arithmetic_imp_fails_as_arithmetic_command() {
    let mut p = Parser::new("\t ".to_string());
    let err = p.read_token().expect_err("must fail");
    assert_eq!(
        err.message(),
        "Could not parse Arithmetic command on line 1"
    );
}

#[test]
fn lone_heap_imp_fails_as_heap_command() {
    let mut p = Parser::new("\t\t".to_string());
    let err = p.read_token().expect_err("must fail");
    assert_eq!(err.message(), "Could not parse Heap command on line 1");
}

#[test]
fn lone_flow_imp_fails_on_line_two() {
    let mut p = Parser::new("\n".to_string());
    let err = p.read_token().expect_err("must fail");
    assert_eq!(err.message(), "Could not parse Flow command on line 2");
}

#[test]
fn lone_io_imp_fails_on_line_two() {
    let mut p = Parser::new("\t\n".to_string());
    let err = p.read_token().expect_err("must fail");
    assert_eq!(err.message(), "Could not parse IO command on line 2");
}

#[test]
fn all_opcodes_decode() {
    let src = format!(
        "{}{}{}{}{}{}{}{}{}{}{}{}{}{}{}{}{}{}{}{}{}{}{}{}",
        push_cmd(3),
        " \n ",                // Dup
        "  \t \n",             // Push 2 (digits: tab space)
        " \t \t\n",            // Copy 1
        " \n\t",               // Swap
        " \n\n",               // Disc
        " \t\n \n",            // Slide 0
        "\t   ",               // Add
        "\t  \t",              // Sub
        "\t  \n",              // Mult
        "\t \t ",              // IDiv
        "\t \t\t",             // Mod
        "\t\t ",               // Store
        "\t\t\t",              // Retr
        "\n   \t\n",           // Labl " \t"
        "\n \t \t\n",          // Call " \t"
        "\n \n \t\n",          // Jump " \t"
        "\n\t  \t\n",          // JumpZ " \t"
        "\n\t\t \t\n",         // JumpN " \t"
        "\n\t\n",              // EndS
        "\t\n  ",              // OutC
        "\t\n \t",             // OutI
        "\t\n\t ",             // ReadC
        "\t\n\t\t",            // ReadI
    );
    let mut expected: Vec<CommandType> = vec![
        CommandType::Push(3),
        CommandType::Dup,
        CommandType::Push(2),
        CommandType::Copy(1),
        CommandType::Swap,
        CommandType::Disc,
        CommandType::Slide(0),
        CommandType::Add,
        CommandType::Sub,
        CommandType::Mult,
        CommandType::IDiv,
        CommandType::Mod,
        CommandType::Store,
        CommandType::Retr,
        CommandType::Labl(" \t".to_string()),
        CommandType::Call(" \t".to_string()),
        CommandType::Jump(" \t".to_string()),
        CommandType::JumpZ(" \t".to_string()),
        CommandType::JumpN(" \t".to_string()),
        CommandType::EndS,
        CommandType::OutC,
        CommandType::OutI,
        CommandType::ReadC,
        CommandType::ReadI,
    ];
    let mut p = Parser::new(src);
    expected.reverse();
    while !p.is_end() {
        let tok = p.read_token().expect("opcode should decode");
        let want = expected.pop().expect("more tokens than expected");
        assert_eq!(tok.token_type, TokenType::Command(want));
    }
    assert!(expected.is_empty(), "fewer tokens than expected");
}

#[test]
fn decode_twice_yields_identical_sequences() {
    let src = format!(
        "{}{}{}{}",
        push_cmd(10),
        push_cmd(3),
        "\t  \t", // Sub
        "\n\n\n"  // EndP
    );
    let mut vm1 = VirtualMachine::new(Parser::new(src.clone()));
    let mut vm2 = VirtualMachine::new(Parser::new(src));
    vm1.parse().expect("first decode");
    vm2.parse().expect("second decode");
    assert_eq!(vm1.program(), vm2.program());
}

#[test]
fn parse_twice_is_a_misuse_error() {
    let mut vm = VirtualMachine::new(Parser::new("\n\n\n".to_string()));
    vm.parse().expect("first decode");
    let err = vm.parse().expect_err("second decode must fail");
    assert_eq!(err.message(), "Already parsed source");
}

#[test]
fn decode_failure_aborts_whole_parse() {
    let src = format!("{}{}", push_cmd(1), "\t");
    let mut vm = VirtualMachine::new(Parser::new(src));
    let err = vm.parse().expect_err("must fail");
    assert_eq!(err.message(), "Could not parse IMP on line 2");
}
