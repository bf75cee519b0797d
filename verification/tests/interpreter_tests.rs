use microlang::interpreter::{Action, Fault, Interpreter, RunEnd};
use microlang::parser::{Inst, Parser};
use microlang::semantics::{ArithOp, Site};
use microlang::value::MValue;

fn show(v: &MValue) -> String {
    match v {
        MValue::String(s) => s.clone(),
        MValue::Number(n) => n.to_string(),
        MValue::VStack(items) => format!("{:?}", items),
    }
}

/// Runs a program; `inputs` are the lines read by `in` (an empty line once they
/// run out), `funcs` are host functions that print what they pop.
fn run_with(src: &str, inputs: &[&str], funcs: &[&str]) -> (String, Option<Fault>) {
    let mut parser = Parser::new(src);
    let insts = parser.try_parse().expect("parse");
    let mut interp = Interpreter::new(insts);
    for f in funcs {
        interp.add_function(f);
    }
    assert!(interp.start(), "no main");
    let mut out = String::new();
    let mut next_input = 0;
    let mut steps = 0;
    while interp.running() {
        steps += 1;
        assert!(steps < 100_000, "runaway program");
        match interp.step() {
            Err(f) => return (out, Some(f)),
            Ok(Action::Continue) => {}
            Ok(Action::Print(v)) => out.push_str(&show(&v)),
            Ok(Action::Newline) => out.push('\n'),
            Ok(Action::ReadLine) => {
                let line = if next_input < inputs.len() { inputs[next_input] } else { "" };
                next_input += 1;
                interp.push_input(line);
            }
            Ok(Action::DumpStack) => out.push_str(&format!("<{}>", interp.stack.len())),
            Ok(Action::Call(name)) => {
                if let Some(v) = interp.stack.pop() {
                    match v {
                        MValue::Number(n) => out.push_str(&format!("{}:Number: {}\n", name, n)),
                        MValue::String(s) => out.push_str(&format!("{}:String: {}\n", name, s)),
                        _ => {}
                    }
                }
            }
        }
    }
    (out, None)
}

fn run(src: &str) -> (String, Option<Fault>) {
    run_with(src, &[], &[])
}

fn output(src: &str) -> String {
    let (out, fault) = run(src);
    assert!(fault.is_none(), "unexpected fault {:?}", fault);
    out
}

#[test]
fn hello_world_prints() {
    assert_eq!(output("main:\n\"Hello, World!\" put endl"), "Hello, World!\n");
}

#[test]
fn readme_calculator_adds() {
    let src = "@main jmp\n\nadd: in s2n in s2n add put ret\nsub: in s2n in s2n sub put ret\nmul: in s2n in s2n mul put ret\ndiv: in s2n in s2n div put ret\n\nmain:\n    \"Enter op (+-*/): \" put in dup \n    \"+\" cmp @add jz dup\n    \"-\" cmp @sub jz dup\n    \"*\" cmp @mul jz\n    \"/\" cmp @div jz\n";
    let (out, fault) = run_with(src, &["+", "2", " 3 "], &[]);
    assert!(fault.is_none());
    assert_eq!(out, "Enter op (+-*/): 5Enter op (+-*/): ");
    let (out, _) = run_with(src, &["-", "2", "10"], &[]);
    assert!(out.starts_with("Enter op (+-*/): 8"));
}

#[test]
fn readme_host_function_prints() {
    let (out, fault) = run_with("main:\n#0 cprint\n\"Hello, World!\" cprint", &[], &["cprint"]);
    assert!(fault.is_none());
    assert_eq!(out, "cprint:Number: 0\ncprint:String: Hello, World!\n");
}

#[test]
fn arithmetic_takes_top_first() {
    assert_eq!(output("main: #3 #a sub put"), "7");
    assert_eq!(output("main: #3 #a add put"), "13");
    assert_eq!(output("main: #3 #a mul put"), "30");
    assert_eq!(output("main: #3 #a div put"), "3");
    assert_eq!(output("main: \"-7\" s2n #2 div put"), "0");
    assert_eq!(output("main: #2 \"-7\" s2n div put"), "-3");
}

#[test]
fn read_after_write_gives_value_back() {
    assert_eq!(output("main: $x #5 <x >x put slen put"), "50");
    assert_eq!(output("main: $x >x put"), "0");
}

#[test]
fn vstack_is_last_in_first_out() {
    assert_eq!(output("main: %s #1 <s #2 <s \"s\" vslen put >s put >s put"), "221");
    assert_eq!(output("main: %s #1 <s #2 <s \"s\" vswap >s put >s put"), "12");
    assert_eq!(output("main: %s #1 <s #2 <s \"s\" vpop >s put \"s\" vslen put"), "10");
}

#[test]
fn call_returns_after_call_site() {
    assert_eq!(output("f: \"in\" put ret\nmain: f \"back\" put"), "inback");
}

#[test]
fn jump_to_label_address() {
    assert_eq!(output("main: @end jmp \"skipped\" put end: \"done\" put"), "done");
    assert_eq!(output("main: #0 @end jz \"a\" put end: \"b\" put"), "b");
    assert_eq!(output("main: #1 @end jz \"a\" put end: \"b\" put"), "ab");
    assert_eq!(output("main: #1 @end jnz \"a\" put end: \"b\" put"), "b");
    assert_eq!(output("main: \"x\" @end jz \"a\" put end: \"b\" put"), "ab");
}

#[test]
fn swap_reverses_whole_stack() {
    assert_eq!(output("main: #1 #2 #3 swap put put put"), "123");
    assert_eq!(output("main: #1 #2 #3 swap swap put put put"), "321");
}

#[test]
fn push_then_pop_and_dup() {
    assert_eq!(output("main: #1 #2 pop put"), "1");
    assert_eq!(output("main: #4 dup add put"), "8");
}

#[test]
fn strings_operations() {
    assert_eq!(output("main: \"ab\" \"cd\" strjoin put"), "abcd");
    assert_eq!(output("main: \"h\u{e9}llo\" strlen put"), "6");
    assert_eq!(output("main: \"hello\" #1 strat put"), "e");
    assert_eq!(output("main: \"a\" \"a\" cmp put \"a\" \"b\" cmp put #2 #5 cmp put"), "013");
    assert_eq!(output("main: \" -42 \" s2n put"), "-42");
}

#[test]
fn stack_length_and_dump() {
    assert_eq!(output("main: #9 #9 slen put stackdmp"), "2<2>");
}

#[test]
fn label_address_value() {
    assert_eq!(output("main: x: @x put"), "2");
}

#[test]
fn later_label_wins() {
    assert_eq!(output("main: @x put x: x: @x put"), "55");
}

#[test]
fn faults_are_reported() {
    assert!(matches!(run("main: add").1, Some(Fault::StackUnderflow(Site::Add))));
    assert!(matches!(run("main: #1 \"a\" add").1, Some(Fault::IncorrectArguments(Site::Add))));
    assert!(matches!(run("main: #0 #1 div").1, Some(Fault::DivideByZero)));
    assert!(matches!(run("main: #1 div").1, Some(Fault::StackUnderflow(Site::Mul))));
    assert!(matches!(run("main: #1 #7fffffff add").1, Some(Fault::Overflow(ArithOp::Add))));
    assert!(matches!(run("main: dup").1, Some(Fault::DupUnderflow)));
    assert!(matches!(run("main: ret").1, Some(Fault::ReturnStackUnderflow)));
    assert!(matches!(run("main: pop").1, Some(Fault::PopUnderflow)));
    assert!(matches!(run("main: jmp").1, Some(Fault::JmpUnderflow)));
    assert!(matches!(run("main: #1 jz").1, Some(Fault::JzUnderflow)));
    assert!(matches!(run("main: #1 jnz").1, Some(Fault::JnzUnderflow)));
    assert!(matches!(run("main: \"a\" jmp").1, Some(Fault::JumpToString)));
    assert!(matches!(run("main: s2n").1, Some(Fault::S2nUnderflow)));
    assert!(matches!(run("main: #1 s2n").1, Some(Fault::NumberToNumber)));
    assert!(matches!(run("main: %v \"v\" vpop \"v\" vslen \"x\" s2n").1, Some(Fault::InvalidNumber)));
    assert!(matches!(run("main: \"v\" vswap").1, Some(Fault::NoEntry)));
    assert!(matches!(run("main: $v \"v\" vswap").1, Some(Fault::NotAVStack(Site::Vswap, MValue::Number(0)))));
    assert!(matches!(run("main: %v >v").1, Some(Fault::VStackUnderflow)));
    assert!(matches!(run("main: >v").1, Some(Fault::UnknownVariable(_))));
    assert!(matches!(run("main: #1 <v").1, Some(Fault::UnknownVariable(_))));
    assert!(matches!(run("main: <v").1, Some(Fault::StackUnderflow(Site::WriteVar))));
    assert!(matches!(run("main: \"ab\" #2 strat").1, Some(Fault::IndexOutOfBounds)));
    assert!(matches!(run("main: #1 cmp").1, Some(Fault::StackUnderflow(Site::Cmp))));
    assert!(matches!(run("main: #1 \"a\" cmp").1, Some(Fault::CompareStringNumber)));
    assert!(matches!(run("main: \"a\" #1 cmp").1, Some(Fault::CompareNumberString)));
    assert!(matches!(run("main: \"-2147483648\" s2n #1 cmp").1, Some(Fault::Overflow(ArithOp::Sub))));
    assert!(matches!(run("main: #7fffffff #2 mul").1, Some(Fault::Overflow(ArithOp::Mul))));
    assert!(matches!(run("main: #ff #ff mul #1 sub").1, None));
    assert!(matches!(run("main: #1 \"-2147483648\" s2n sub").1, Some(Fault::Overflow(ArithOp::Sub))));
    assert!(matches!(run("main: #ffffffff").1, None));
    assert!(matches!(run("main: \"-1\" s2n \"-2147483648\" s2n div").1, Some(Fault::Overflow(ArithOp::Div))));
    assert!(matches!(run("main: %v \"v\" s2n").1, Some(Fault::InvalidNumber)));
    assert!(matches!(run("main: nowhere").1, Some(Fault::NoEntry)));
    assert!(matches!(run("main: @nowhere").1, Some(Fault::NoEntry)));
    assert!(matches!(run("main: put").1, Some(Fault::StackUnderflow(Site::Put))));
}

#[test]
fn ret_from_main_goes_to_start() {
    assert_eq!(output("\"a\" put @end jmp main: ret end:"), "a");
    assert!(matches!(run("main: ret ret").1, Some(Fault::ReturnStackUnderflow)));
}

#[test]
fn reading_empty_vstack_faults() {
    assert!(matches!(run("main: %v \"v\" >v").1, Some(Fault::VStackUnderflow)));
    let (_, f) = run_with("main: \"s\" put", &[], &[]);
    assert!(f.is_none());
}

#[test]
fn faulting_step_changes_nothing() {
    let mut parser = Parser::new("main: #1 add");
    let insts = parser.try_parse().unwrap();
    let mut interp = Interpreter::new(insts);
    assert!(interp.start());
    assert!(matches!(interp.step(), Ok(Action::Continue)));
    let ip = interp.ip();
    assert!(matches!(interp.step(), Err(Fault::StackUnderflow(Site::Add))));
    assert_eq!(interp.ip(), ip);
    assert_eq!(interp.stack.len(), 1);
}

#[test]
fn input_is_trimmed() {
    let (out, _) = run_with("main: in put \"|\" put", &["  spaced\t\n"], &[]);
    assert_eq!(out, "spaced|");
}

#[test]
fn no_main_is_reported() {
    let mut parser = Parser::new("start: #1 put");
    let mut interp = Interpreter::new(parser.parse());
    assert!(!interp.start());
}

#[test]
fn parse_keywords_and_loaders() {
    let mut p = Parser::new("add sub slen vslen s2n foo x: @y \"s t\" #1f $a %b >c <d stackdmp");
    let insts = p.parse();
    assert_eq!(
        insts,
        vec![
            Inst::Add,
            Inst::Sub,
            Inst::Stacklen,
            Inst::VStacklen,
            Inst::Str2num,
            Inst::CustomInstruction("foo".to_string()),
            Inst::Label("x".to_string()),
            Inst::LabelAddress("y".to_string()),
            Inst::LoadString("s t".to_string()),
            Inst::LoadNumber(31),
            Inst::DefineVar("a".to_string()),
            Inst::DefineVStack("b".to_string()),
            Inst::ReadVar("c".to_string()),
            Inst::WriteVar("d".to_string()),
            Inst::Stackdmp,
        ]
    );
}

#[test]
fn parse_skips_errors_and_bad_numbers() {
    let mut p = Parser::new("#80000000 #7fffffff #1> ! #include \"f\" \r put // put\nendl");
    assert_eq!(
        p.parse(),
        vec![Inst::LoadNumber(i32::MAX), Inst::LoadString("f".to_string()), Inst::Put, Inst::Endl]
    );
}

#[test]
fn parse_instruction_one_by_one() {
    let mut p = Parser::new("  dup  ");
    assert_eq!(p.parse_instruction(), Some(Inst::Dup));
    assert_eq!(p.parse_instruction(), Some(Inst::Eof));
    assert_eq!(p.parse_instruction(), Some(Inst::Eof));
    let mut p = Parser::new("@ dup");
    assert_eq!(p.parse_instruction(), None);
    assert_eq!(p.parse_instruction(), Some(Inst::Dup));
}

#[test]
fn sigil_without_word_is_refused() {
    assert!(Parser::new("$ $").try_parse().is_none());
    assert!(Parser::new("put >").try_parse().is_none());
    assert!(Parser::new("< #1").try_parse().is_none());
    assert!(Parser::new("> a").try_parse().is_some());
}

#[test]
fn expect_and_expect_ident() {
    let mut p = Parser::new("abc $");
    assert_eq!(p.expect_ident(), "abc");
    assert!(p.expect(microlang::lexer::Token::Dollar));
}

#[test]
fn hex_numbers_accept_both_cases() {
    let mut p = Parser::new("#fF #A0 #0");
    assert_eq!(p.parse(), vec![Inst::LoadNumber(255), Inst::LoadNumber(160), Inst::LoadNumber(0)]);
}

#[test]
fn readme_hello_world_with_puts() {
    let mut parser = Parser::new("main:\n\"Hello, World!\" puts");
    let insts = parser.parse();
    assert_eq!(
        insts,
        vec![Inst::Label("main".to_string()), Inst::LoadString("Hello, World!".to_string()), Inst::Put]
    );
    assert_eq!(output("main:\n\"Hello, World!\" puts"), "Hello, World!");
}

#[test]
fn parse_leaves_parser_at_end() {
    let mut p = Parser::new("add sub  ");
    assert_eq!(p.parse(), vec![Inst::Add, Inst::Sub]);
    assert_eq!(p.parse_instruction(), Some(Inst::Eof));
}

#[test]
fn run_stops_at_host_requests_and_end() {
    let mut p = Parser::new("main: #1 #2 add put #3 put");
    let mut interp = Interpreter::new(p.parse());
    assert!(interp.start());
    assert!(matches!(interp.run(1), RunEnd::OutOfFuel));
    assert!(matches!(interp.run(100), RunEnd::Acted(Action::Print(MValue::Number(3)))));
    assert!(matches!(interp.run(100), RunEnd::Acted(Action::Print(MValue::Number(3)))));
    assert!(matches!(interp.run(100), RunEnd::Finished));
    let mut p = Parser::new("main: #1 add");
    let mut interp = Interpreter::new(p.parse());
    assert!(interp.start());
    assert!(matches!(interp.run(100), RunEnd::Faulted(Fault::StackUnderflow(Site::Add))));
    assert_eq!(interp.stack_values().len(), 1);
}

#[test]
fn host_stack_access() {
    let mut interp = Interpreter::new(Vec::new());
    assert!(interp.pop_stack().is_none());
    interp.push_stack(MValue::Number(4));
    interp.push_stack(MValue::String("x".to_string()));
    assert_eq!(interp.stack_values().len(), 2);
    assert!(matches!(interp.pop_stack(), Some(MValue::String(s)) if s == "x"));
    assert!(matches!(interp.pop_stack(), Some(MValue::Number(4))));
    assert!(interp.pop_stack().is_none());
}

#[test]
fn find_labels_scans_from_the_instruction_pointer() {
    let insts = vec![Inst::Label("a".to_string()), Inst::LabelAddress("a".to_string())];
    let mut it = Interpreter::new(insts);
    assert!(matches!(it.step(), Ok(Action::Continue)));
    assert_eq!(it.ip(), 1);
    it.find_labels();
    assert_eq!(it.ip(), 0);
    assert!(matches!(it.step(), Ok(Action::Continue)));
    assert!(matches!(it.step(), Err(Fault::NoEntry)));
}

#[test]
fn find_labels_from_the_start_records_every_label() {
    let insts = vec![Inst::Label("a".to_string()), Inst::LabelAddress("a".to_string())];
    let mut it = Interpreter::new(insts);
    it.find_labels();
    assert_eq!(it.ip(), 0);
    assert!(matches!(it.step(), Ok(Action::Continue)));
    assert!(matches!(it.step(), Ok(Action::Continue)));
    assert!(matches!(it.stack_values().as_slice(), [MValue::Number(1)]));
}

#[test]
fn parse_reporting_lists_numbers_that_do_not_fit() {
    let mut p = Parser::new("#1 #1G add #80000000 #7FFFFFFF");
    let (insts, rejected) = p.parse_reporting();
    assert_eq!(
        insts,
        Some(vec![Inst::LoadNumber(1), Inst::Add, Inst::LoadNumber(0x7FFF_FFFF)])
    );
    assert_eq!(rejected, vec!["#1G".to_string(), "#80000000".to_string()]);
}

#[test]
fn parse_reporting_keeps_the_numbers_met_before_a_failure() {
    let mut p = Parser::new("#1G $ #2H");
    let (insts, rejected) = p.parse_reporting();
    assert!(insts.is_none());
    assert_eq!(rejected, vec!["#1G".to_string()]);
}

#[test]
fn parse_reporting_on_clean_text_reports_nothing() {
    let (insts, rejected) = Parser::new("main: #A put").parse_reporting();
    assert_eq!(
        insts,
        Some(vec![Inst::Label("main".to_string()), Inst::LoadNumber(10), Inst::Put])
    );
    assert!(rejected.is_empty());
}

#[test]
fn readme_host_loop_hands_calls_back() {
    let insts = Parser::new("main: #2A cprint").try_parse().expect("Expected ident");
    let mut interpreter = Interpreter::new(insts);
    interpreter.add_function("cprint");
    assert!(interpreter.start());
    let mut printed = Vec::new();
    loop {
        match interpreter.run(1 << 16) {
            RunEnd::Finished => break,
            RunEnd::OutOfFuel => {}
            RunEnd::Faulted(fault) => panic!("{fault:?}"),
            RunEnd::Acted(Action::Call(name)) => {
                assert_eq!(name, "cprint");
                if let Some(MValue::Number(n)) = interpreter.pop_stack() {
                    printed.push(n);
                }
            }
            RunEnd::Acted(_) => {}
        }
    }
    assert_eq!(printed, vec![42]);
}
