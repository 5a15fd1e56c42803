use whitespace_vm::parser::Parser;
use whitespace_vm::virtual_machine::{OutItem, RunSignal, VirtualMachine};

const FUEL: u64 = 10_000;

fn bin(n: u32) -> String {
    let mut s = String::new();
    if n == 0 {
        s.push(' ');
        return s;
    }
    let mut digs: Vec<u32> = Vec::new();
    let mut m = n;
    while m > 0 {
        digs.push(m % 2);
        m /= 2;
    }
    for d in digs.iter().rev() {
        s.push(if *d == 1 { '\t' } else { ' ' });
    }
    s
}

fn push(n: u32) -> String {
    format!("  {}\n", bin(n))
}

fn copy(n: u32) -> String {
    format!(" \t {}\n", bin(n))
}

fn slide(n: u32) -> String {
    format!(" \t\n{}\n", bin(n))
}

fn labl(l: &str) -> String {
    format!("\n  {}\n", l)
}

fn call(l: &str) -> String {
    format!("\n \t{}\n", l)
}

fn jump(l: &str) -> String {
    format!("\n \n{}\n", l)
}

fn jumpz(l: &str) -> String {
    format!("\n\t {}\n", l)
}

const DUP: &str = " \n ";
const SWAP: &str = " \n\t";
const DISC: &str = " \n\n";
const ADD: &str = "\t   ";
const SUB: &str = "\t  \t";
const MULT: &str = "\t  \n";
const IDIV: &str = "\t \t ";
const MODULO: &str = "\t \t\t";
const STORE: &str = "\t\t ";
const RETR: &str = "\t\t\t";
const ENDS: &str = "\n\t\n";
const ENDP: &str = "\n\n\n";
const OUTC: &str = "\t\n  ";
const OUTI: &str = "\t\n \t";
const READC: &str = "\t\n\t ";
const READI: &str = "\t\n\t\t";

fn machine(src: String) -> VirtualMachine {
    let mut vm = VirtualMachine::new(Parser::new(src));
    vm.parse().expect("program should decode");
    vm
}

fn run_to_halt(src: String) -> VirtualMachine {
    let mut vm = machine(src);
    let sig = vm.run(FUEL).expect("program should run");
    assert_eq!(sig, RunSignal::Halted);
    vm
}

#[test]
fn end_program_alone_halts_with_empty_output_and_stack() {
    let vm = run_to_halt(ENDP.to_string());
    assert!(vm.output().is_empty());
    assert!(vm.stack_contents().is_empty());
}

#[test]
fn run_without_instructions_halts_immediately() {
    let mut vm = VirtualMachine::new(Parser::new(String::new()));
    assert_eq!(vm.run(FUEL).unwrap(), RunSignal::Halted);
}

#[test]
fn sub_computes_first_pushed_minus_second() {
    let vm = run_to_halt(format!("{}{}{}", push(10), push(3), SUB));
    assert_eq!(vm.stack_contents(), &vec![7]);
}

#[test]
fn add_and_mult_compute() {
    let vm = run_to_halt(format!("{}{}{}{}{}", push(2), push(3), ADD, push(4), MULT));
    assert_eq!(vm.stack_contents(), &vec![20]);
}

#[test]
fn mult_wraps_at_the_32_bit_boundary() {
    let vm = run_to_halt(format!("{}{}{}", push(2147483647), push(2), MULT));
    assert_eq!(vm.stack_contents(), &vec![-2]);
}

#[test]
fn division_truncates_toward_zero() {
    let vm = run_to_halt(format!(
        "{}{}{}{}{}{}{}{}",
        push(7),
        push(2),
        IDIV,
        push(0),
        push(7),
        SUB,
        push(2),
        IDIV
    ));
    assert_eq!(vm.stack_contents(), &vec![3, -3]);
}

#[test]
fn remainder_takes_the_dividend_sign() {
    let vm = run_to_halt(format!(
        "{}{}{}{}{}{}{}{}",
        push(7),
        push(2),
        MODULO,
        push(0),
        push(7),
        SUB,
        push(2),
        MODULO
    ));
    assert_eq!(vm.stack_contents(), &vec![1, -1]);
}

#[test]
fn division_by_zero_is_a_fatal_arithmetic_error() {
    let mut vm = machine(format!("{}{}{}", push(1), push(0), IDIV));
    let err = vm.run(FUEL).expect_err("must fail");
    assert_eq!(err.message(), "Fatal arithmetic error");
}

#[test]
fn dup_then_two_discards_empty_a_single_element_stack() {
    let vm = run_to_halt(format!("{}{}{}{}", push(5), DUP, DISC, DISC));
    assert!(vm.stack_contents().is_empty());
}

#[test]
fn discard_past_the_empty_stack_fails_stack_empty() {
    let mut vm = machine(format!("{}{}{}{}{}", push(5), DUP, DISC, DISC, DISC));
    let err = vm.run(FUEL).expect_err("must fail");
    assert_eq!(err.message(), "Stack is empty");
}

#[test]
fn swap_reverses_the_top_two() {
    let vm = run_to_halt(format!("{}{}{}", push(1), push(2), SWAP));
    assert_eq!(vm.stack_contents(), &vec![2, 1]);
}

#[test]
fn copy_pushes_the_value_at_depth() {
    let vm = run_to_halt(format!("{}{}{}{}", push(1), push(2), push(3), copy(2)));
    assert_eq!(vm.stack_contents(), &vec![1, 2, 3, 1]);
}

#[test]
fn copy_below_the_bottom_fails() {
    let mut vm = machine(format!("{}{}", push(1), copy(5)));
    let err = vm.run(FUEL).expect_err("must fail");
    assert_eq!(err.message(), "Stack index is negative");
}

#[test]
fn slide_keeps_the_top_and_drops_the_next() {
    let vm = run_to_halt(format!("{}{}{}{}", push(1), push(2), push(3), slide(2)));
    assert_eq!(vm.stack_contents(), &vec![3]);
}

#[test]
fn slide_past_the_bottom_fails_stack_empty() {
    let mut vm = machine(format!("{}{}", push(1), slide(5)));
    let err = vm.run(FUEL).expect_err("must fail");
    assert_eq!(err.message(), "Stack is empty");
}

#[test]
fn swap_with_one_element_fails_stack_empty() {
    let mut vm = machine(format!("{}{}", push(1), SWAP));
    let err = vm.run(FUEL).expect_err("must fail");
    assert_eq!(err.message(), "Stack is empty");
}

#[test]
fn store_then_retrieve_round_trips() {
    let vm = run_to_halt(format!(
        "{}{}{}{}{}",
        push(5),
        push(42),
        STORE,
        push(5),
        RETR
    ));
    assert_eq!(vm.stack_contents(), &vec![42]);
}

#[test]
fn retrieve_unstored_address_yields_zero_twice() {
    let vm = run_to_halt(format!("{}{}{}{}", push(3), RETR, push(3), RETR));
    assert_eq!(vm.stack_contents(), &vec![0, 0]);
}

#[test]
fn store_at_negative_address_fails() {
    let mut vm = machine(format!(
        "{}{}{}{}{}",
        push(0),
        push(5),
        SUB,
        push(1),
        STORE
    ));
    let err = vm.run(FUEL).expect_err("must fail");
    assert_eq!(err.message(), "Heap index can not be negative");
}

#[test]
fn retrieve_at_negative_address_fails() {
    let mut vm = machine(format!("{}{}{}{}", push(0), push(5), SUB, RETR));
    let err = vm.run(FUEL).expect_err("must fail");
    assert_eq!(err.message(), "Heap index can not be negative");
}

#[test]
fn jump_to_missing_label_fails_only_when_it_executes() {
    let src = format!("{}{}", push(1), jump("\t"));
    let mut vm = VirtualMachine::new(Parser::new(src));
    vm.parse().expect("decode and assembly never check labels");
    let err = vm.run(FUEL).expect_err("the jump itself must fail");
    assert_eq!(err.message(), "Label \t does not exist");
}

#[test]
fn conditional_jump_not_taken_ignores_missing_label() {
    let vm = run_to_halt(format!("{}{}{}", push(1), jumpz("\t"), ENDP));
    assert!(vm.stack_contents().is_empty());
}

#[test]
fn conditional_jump_taken_to_missing_label_fails() {
    let mut vm = machine(format!("{}{}{}", push(0), jumpz("\t"), ENDP));
    let err = vm.run(FUEL).expect_err("must fail");
    assert_eq!(err.message(), "Label \t does not exist");
}

#[test]
fn call_and_end_subroutine_resume_after_the_call() {
    let src = format!(
        "{}{}{}{}{}{}",
        call(" "),
        push(2),
        ENDP,
        labl(" "),
        push(1),
        ENDS
    );
    let vm = run_to_halt(src);
    assert_eq!(vm.stack_contents(), &vec![1, 2]);
}

#[test]
fn end_subroutine_with_empty_call_stack_moves_on() {
    let vm = run_to_halt(format!("{}{}{}", ENDS, push(9), ENDP));
    assert_eq!(vm.stack_contents(), &vec![9]);
}

#[test]
fn redefined_label_keeps_the_last_occurrence() {
    let src = format!(
        "{}{}{}{}{}{}{}",
        jump(" "),
        labl(" "),
        push(1),
        ENDP,
        labl(" "),
        push(2),
        ENDP
    );
    let vm = run_to_halt(src);
    assert_eq!(vm.stack_contents(), &vec![2]);
}

#[test]
fn output_records_characters_and_integers_in_order() {
    let vm = run_to_halt(format!(
        "{}{}{}{}{}",
        push(72),
        OUTC,
        push(105),
        OUTI,
        ENDP
    ));
    assert_eq!(vm.output(), &vec![OutItem::Chr(72), OutItem::Num(105)]);
}

#[test]
fn output_on_empty_stack_fails() {
    let mut vm = machine(OUTI.to_string());
    let err = vm.run(FUEL).expect_err("must fail");
    assert_eq!(err.message(), "Stack is empty");
}

#[test]
fn read_char_stores_the_byte_at_the_top_address() {
    let mut vm = machine(format!("{}{}{}{}{}", push(3), READC, push(3), RETR, ENDP));
    assert_eq!(vm.run(FUEL).unwrap(), RunSignal::NeedChar);
    vm.supply_char(Some(65)).expect("input available");
    assert_eq!(vm.run(FUEL).unwrap(), RunSignal::Halted);
    assert_eq!(vm.stack_contents(), &vec![3, 65]);
}

#[test]
fn read_char_fails_when_input_is_exhausted() {
    let mut vm = machine(format!("{}{}", push(3), READC));
    assert_eq!(vm.run(FUEL).unwrap(), RunSignal::NeedChar);
    let err = vm.supply_char(None).expect_err("must fail");
    assert_eq!(err.message(), "Could not read from user input");
}

#[test]
fn read_int_parses_a_trimmed_signed_line() {
    let mut vm = machine(format!("{}{}{}{}{}", push(1), READI, push(1), RETR, ENDP));
    assert_eq!(vm.run(FUEL).unwrap(), RunSignal::NeedInt);
    vm.supply_int(Some("  -42\n".to_string())).expect("parses");
    assert_eq!(vm.run(FUEL).unwrap(), RunSignal::Halted);
    assert_eq!(vm.stack_contents(), &vec![1, -42]);
}

#[test]
fn read_int_accepts_the_smallest_32_bit_integer() {
    let mut vm = machine(format!("{}{}{}{}{}", push(1), READI, push(1), RETR, ENDP));
    assert_eq!(vm.run(FUEL).unwrap(), RunSignal::NeedInt);
    vm.supply_int(Some("-2147483648\n".to_string())).unwrap();
    assert_eq!(vm.run(FUEL).unwrap(), RunSignal::Halted);
    assert_eq!(vm.stack_contents(), &vec![1, i32::MIN]);
}

#[test]
fn read_int_rejects_an_unparsable_line() {
    let mut vm = machine(format!("{}{}", push(1), READI));
    assert_eq!(vm.run(FUEL).unwrap(), RunSignal::NeedInt);
    let err = vm.supply_int(Some("abc\n".to_string())).expect_err("must fail");
    assert_eq!(err.message(), "Could not read number abc\n");
}

#[test]
fn read_int_rejects_a_value_out_of_range() {
    let mut vm = machine(format!("{}{}", push(1), READI));
    assert_eq!(vm.run(FUEL).unwrap(), RunSignal::NeedInt);
    let err = vm
        .supply_int(Some("2147483648\n".to_string()))
        .expect_err("must fail");
    assert_eq!(err.message(), "Could not read number 2147483648\n");
}

#[test]
fn an_endless_loop_pauses_when_the_budget_runs_out() {
    let mut vm = machine(format!("{}{}", labl(" "), jump(" ")));
    assert_eq!(vm.run(1_000).unwrap(), RunSignal::Paused);
    assert_eq!(vm.run(1_000).unwrap(), RunSignal::Paused);
}
