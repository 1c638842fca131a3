use turir::compiler::{CompileErr, Compiler};
use turir::interp::{execute_program, find_instr, run_one, tape_print, ExecEnd, RunErr};
use turir::lexer::{is_symbol, Lexer, TokenKind, TokenResult};
use turir::parser::{parse_source, Dir, Instr, Parser, Program, RunCmd};

fn sym(s: &str) -> Vec<u8> {
    s.as_bytes().to_vec()
}

fn parse(src: &str) -> Program {
    parse_source(src.as_bytes().to_vec(), "test.tur").expect("source should parse")
}

fn token_of(r: TokenResult) -> (TokenKind, Vec<u8>) {
    match r {
        TokenResult::Valid(t) => (t.kind, t.text),
        other => panic!("expected a valid token, got {:?}", other),
    }
}

#[test]
fn lex_simple_instruction_line() {
    let mut lx = Lexer::new(b"A 0 1 -> B\n".to_vec(), "t");
    assert_eq!(token_of(lx.next_token()), (TokenKind::Symbol, sym("A")));
    assert_eq!(token_of(lx.next_token()), (TokenKind::Symbol, sym("0")));
    assert_eq!(token_of(lx.next_token()), (TokenKind::Symbol, sym("1")));
    assert_eq!(token_of(lx.next_token()), (TokenKind::RightArrow, sym("->")));
    assert_eq!(token_of(lx.next_token()), (TokenKind::Symbol, sym("B")));
    assert_eq!(token_of(lx.next_token()), (TokenKind::NewLine, sym("\n")));
    assert!(matches!(lx.next_token(), TokenResult::Eof { .. }));
}

#[test]
fn lex_left_arrow_and_brackets() {
    let mut lx = Lexer::new(b"[ ] <-".to_vec(), "t");
    assert_eq!(token_of(lx.next_token()).0, TokenKind::Bra);
    assert_eq!(token_of(lx.next_token()).0, TokenKind::Ket);
    assert_eq!(token_of(lx.next_token()), (TokenKind::LeftArrow, sym("<-")));
}

#[test]
fn lex_peek_does_not_advance() {
    // P1: peeking is an idempotent observation.
    let mut lx = Lexer::new(b"  abc def\n".to_vec(), "t");
    let first = token_of(lx.peek_token());
    let second = token_of(lx.peek_token());
    assert_eq!(first, second);
    let consumed = token_of(lx.next_token());
    assert_eq!(first, consumed);
    assert_eq!(token_of(lx.next_token()).1, sym("def"));
}

#[test]
fn lex_whitespace_and_comment_only_is_eof() {
    // P2: nothing but whitespace and comments lexes to end-of-input.
    let mut lx = Lexer::new(b"".to_vec(), "t");
    assert!(matches!(lx.next_token(), TokenResult::Eof { .. }));
    let mut lx = Lexer::new(b" \t\r ".to_vec(), "t");
    assert!(matches!(lx.next_token(), TokenResult::Eof { .. }));
    let mut lx = Lexer::new(b"   // just a comment".to_vec(), "t");
    assert!(matches!(lx.next_token(), TokenResult::Eof { .. }));
}

#[test]
fn lex_comment_folds_into_following_newline() {
    let mut lx = Lexer::new(b"// note\nA".to_vec(), "t");
    let (kind, text) = token_of(lx.next_token());
    assert_eq!(kind, TokenKind::NewLine);
    assert_eq!(text, sym("// note\n"));
    assert_eq!(token_of(lx.next_token()), (TokenKind::Symbol, sym("A")));
}

#[test]
fn lex_quoted_string_symbol() {
    let mut lx = Lexer::new(b"'a [b' x".to_vec(), "t");
    assert_eq!(token_of(lx.next_token()), (TokenKind::Symbol, sym("a [b")));
    assert_eq!(token_of(lx.next_token()), (TokenKind::Symbol, sym("x")));
}

#[test]
fn lex_unclosed_string_at_newline_and_eof() {
    let mut lx = Lexer::new(b"'abc\n".to_vec(), "t");
    assert!(matches!(lx.next_token(), TokenResult::UnclosedStr { .. }));
    let mut lx = Lexer::new(b"'abc".to_vec(), "t");
    assert!(matches!(lx.next_token(), TokenResult::UnclosedStr { .. }));
}

#[test]
fn lex_unknown_byte_advances() {
    // A lone `-` matches no literal exactly and is not a symbol byte.
    let mut lx = Lexer::new(b"- x".to_vec(), "t");
    match lx.next_token() {
        TokenResult::Unknown { text, .. } => assert_eq!(text, sym("-")),
        other => panic!("expected an unknown marker, got {:?}", other),
    }
    assert_eq!(token_of(lx.next_token()), (TokenKind::Symbol, sym("x")));
}

#[test]
fn lex_cmd_token_and_locations() {
    let mut lx = Lexer::new(b"#run\n  #halt".to_vec(), "t");
    match lx.next_token() {
        TokenResult::Valid(t) => {
            assert_eq!(t.kind, TokenKind::Cmd);
            assert_eq!(t.text, sym("#run"));
            assert_eq!((t.loc.row, t.loc.col), (0, 0));
        }
        other => panic!("expected #run, got {:?}", other),
    }
    let _ = lx.next_token(); // the newline
    match lx.next_token() {
        TokenResult::Valid(t) => {
            assert_eq!(t.text, sym("#halt"));
            assert_eq!((t.loc.row, t.loc.col), (1, 2));
        }
        other => panic!("expected #halt, got {:?}", other),
    }
}

#[test]
fn symbol_byte_rule() {
    assert!(is_symbol(b'a'));
    assert!(is_symbol(b'#'));
    assert!(is_symbol(b'>'));
    assert!(!is_symbol(b'-'));
    assert!(!is_symbol(b'<'));
    assert!(!is_symbol(b'['));
    assert!(!is_symbol(b']'));
    assert!(!is_symbol(b'\n'));
    assert!(!is_symbol(b'\''));
    assert!(!is_symbol(b' '));
    assert!(!is_symbol(b'\t'));
}

#[test]
fn kind_names() {
    assert_eq!(TokenKind::Symbol.to_str(), "Symbol");
    assert_eq!(TokenKind::LeftArrow.to_str(), "<-");
    assert_eq!(TokenKind::RightArrow.to_str(), "->");
    assert_eq!(TokenKind::Cmd.to_str(), "Cmd");
    assert_eq!(TokenKind::Bra.to_str(), "[");
    assert_eq!(TokenKind::Ket.to_str(), "]");
    assert_eq!(TokenKind::NewLine.to_str(), "new line");
}

#[test]
fn parse_full_program() {
    let p = parse("A 0 1 -> B\nB 1 0 <- A\n#run [ 0 1 ] A\n#halt B C\n");
    assert_eq!(p.program.len(), 2);
    assert_eq!(p.program[0].state, sym("A"));
    assert_eq!(p.program[0].read, sym("0"));
    assert_eq!(p.program[0].write, sym("1"));
    assert_eq!(p.program[0].dir, Dir::Right);
    assert_eq!(p.program[0].next_state, sym("B"));
    assert_eq!(p.program[1].dir, Dir::Left);
    assert_eq!(p.runs.len(), 1);
    assert_eq!(p.runs[0].tape, vec![sym("0"), sym("1")]);
    assert_eq!(p.runs[0].state, sym("A"));
    assert_eq!(p.halt_syms, vec![sym("B"), sym("C")]);
}

#[test]
fn parse_default_halt_set() {
    // P8: without a #halt directive the halting set is { HALT }.
    let p = parse("A 0 1 -> HALT\n#run [ 0 ] A\n");
    assert_eq!(p.halt_syms, vec![sym("HALT")]);
}

#[test]
fn parse_last_halt_directive_wins() {
    let p = parse("#halt A\n#halt B\n");
    assert_eq!(p.halt_syms, vec![sym("B")]);
}

#[test]
fn parse_empty_halt_directive_clears_the_set() {
    // The default applies only when no #halt directive appears at all:
    // an explicit #halt with no states leaves the halting set empty.
    let p = parse("#halt\n");
    assert_eq!(p.halt_syms, Vec::<Vec<u8>>::new());
}

#[test]
fn parse_last_halt_directive_wins_even_empty() {
    let p = parse("#halt A\n#halt\n");
    assert_eq!(p.halt_syms, Vec::<Vec<u8>>::new());
}

#[test]
fn empty_halt_set_never_halts() {
    // With an explicit empty halting set, reaching HALT does not halt:
    // the run goes on and fails on the undefined transition instead.
    let p = parse("A 0 1 -> HALT\n#run [ 0 ] A\n#halt\n");
    let (_, end) = execute_program(&p, 1000);
    assert_eq!(
        end,
        ExecEnd::Failed(RunErr::Undef { state: sym("HALT"), read: sym("0") })
    );
}

#[test]
fn parse_empty_tape_is_allowed_by_grammar() {
    let p = parse("#run [ ] S\n");
    assert_eq!(p.runs[0].tape.len(), 0);
    assert_eq!(p.runs[0].state, sym("S"));
}

#[test]
fn parse_error_missing_fields() {
    // P6: `A 0\n` must report "Expected Symbol but got new line" at row 1.
    let err = parse_source(b"A 0\n".to_vec(), "test.tur").unwrap_err();
    let msg = String::from_utf8(err.render()).unwrap();
    assert!(msg.contains("Expected Symbol but got new line"));
    assert_eq!(msg, "1:4: Expected Symbol but got new line `\n`");
}

#[test]
fn parse_error_stray_bracket_at_top_level() {
    let err = parse_source(b"[\n".to_vec(), "test.tur").unwrap_err();
    assert_eq!(err.expected, vec![TokenKind::Symbol, TokenKind::Cmd]);
    let msg = String::from_utf8(err.render()).unwrap();
    assert_eq!(msg, "1:1: Expected Symbol or Cmd but got [ `[`");
    match err.got {
        TokenResult::Valid(t) => assert_eq!(t.kind, TokenKind::Bra),
        other => panic!("expected a bracket token, got {:?}", other),
    }
}

#[test]
fn parse_error_unclosed_string() {
    let err = parse_source(b"'oops\n".to_vec(), "test.tur").unwrap_err();
    let msg = String::from_utf8(err.render()).unwrap();
    assert!(msg.contains("unclosed string"));
}

#[test]
fn parse_error_missing_bracket_in_run() {
    let err = parse_source(b"#run 0 A\n".to_vec(), "test.tur").unwrap_err();
    let msg = String::from_utf8(err.render()).unwrap();
    assert!(msg.contains("Expected ["));
}

#[test]
fn parser_peek_and_skip() {
    let lx = Lexer::new(b"A B\n".to_vec(), "t");
    let mut p = Parser::new(lx);
    let t1 = token_of(p.peek_token());
    let t2 = token_of(p.peek_token());
    assert_eq!(t1, t2);
    p.skip_token();
    assert_eq!(token_of(p.peek_token()).1, sym("B"));
}

#[test]
fn instruction_round_trip() {
    // P3: re-serializing a parsed instruction and re-parsing it yields
    // the same instruction.
    let src = "St8 0 1 -> Nxt\n";
    let p = parse(src);
    let instr = &p.program[0];
    let mut text: Vec<u8> = Vec::new();
    turir::interp::push_instr(&mut text, instr);
    text.push(b'\n');
    assert_eq!(text, src.as_bytes().to_vec());
    let p2 = parse_source(text, "t").unwrap();
    assert_eq!(&p2.program[0], instr);
}

#[test]
fn find_instr_first_match_wins() {
    let p = parse("A 0 1 -> B\nA 0 2 -> C\n");
    assert_eq!(find_instr(&p.program, &sym("A"), &sym("0")), Some(0));
    assert_eq!(find_instr(&p.program, &sym("A"), &sym("1")), None);
}

#[test]
fn tape_print_marks_head_column() {
    let mut out: Vec<u8> = Vec::new();
    tape_print(&mut out, &vec![sym("a"), sym("b")], 1);
    assert_eq!(String::from_utf8(out).unwrap(), "[ a b ]\n    ^\n");
}

#[test]
fn run_halts_after_one_step() {
    // P5: one applied instruction, final tape [1] with the head at
    // index 1, halted in state B.
    let p = parse("A 0 1 -> B\n#run [ 0 ] A\n#halt B\n");
    let mut out: Vec<u8> = Vec::new();
    let end = run_one(&p.program, &p.halt_syms, &p.runs[0], 1000, &mut out);
    assert_eq!(end, ExecEnd::Done);
    let trace = String::from_utf8(out).unwrap();
    assert_eq!(
        trace,
        "#run [ 0 ] A\nA 0 1 -> B\n[ 0 ]\n  ^\n[ 1 ]\n    ^\n -- HALT -- with B\n\n"
    );
}

#[test]
fn run_looks_up_rule_even_when_start_state_halts() {
    // The lookup happens before the halt check: a start state in the
    // halt set still performs one step when a rule matches...
    let p = parse("B 0 0 -> B\n#run [ 0 ] B\n#halt B\n");
    let mut out: Vec<u8> = Vec::new();
    let end = run_one(&p.program, &p.halt_syms, &p.runs[0], 1000, &mut out);
    assert_eq!(end, ExecEnd::Done);
    assert!(String::from_utf8(out).unwrap().contains("B 0 0 -> B"));
    // ... and fails when none does, halt set or not.
    let p = parse("#run [ 0 ] B\n#halt B\n");
    let mut out: Vec<u8> = Vec::new();
    let end = run_one(&p.program, &p.halt_syms, &p.runs[0], 1000, &mut out);
    assert_eq!(
        end,
        ExecEnd::Failed(RunErr::Undef { state: sym("B"), read: sym("0") })
    );
}

#[test]
fn tape_grows_with_original_filler() {
    // P4 on a concrete machine: moving right past the end appends one
    // cell holding the last symbol of the original tape, and each step
    // overwrites exactly the head cell.
    let p = parse("A 0 0 -> A\nA z w -> C\nC z z -> B\n#run [ 0 z ] A\n#halt B\n");
    let mut out: Vec<u8> = Vec::new();
    let end = run_one(&p.program, &p.halt_syms, &p.runs[0], 1000, &mut out);
    assert_eq!(end, ExecEnd::Done);
    let trace = String::from_utf8(out).unwrap();
    // After the second step the head moved past the end without
    // halting, so the tape grew by one `z` cell (the original last
    // symbol, not the evolving one), and only head cells changed.
    assert!(trace.contains("[ 0 w z ]"), "trace was: {}", trace);
}

#[test]
fn undefined_transition_aborts_run() {
    let p = parse("A 0 1 -> B\n#run [ 0 ] A\n#halt C\n");
    let (out, end) = execute_program(&p, 1000);
    // The head moved right past the end, so the tape grew by one cell
    // holding the original last symbol `0`, which state B then reads.
    assert_eq!(
        end,
        ExecEnd::Failed(RunErr::Undef { state: sym("B"), read: sym("0") })
    );
    assert!(String::from_utf8(out).unwrap().contains("A 0 1 -> B"));
}

#[test]
fn head_underflow_is_reported() {
    let p = parse("A 0 1 <- B\n#run [ 0 ] A\n#halt C\n");
    let (_, end) = execute_program(&p, 1000);
    assert_eq!(end, ExecEnd::Failed(RunErr::Underflow));
}

#[test]
fn fuel_runs_out_on_a_loop() {
    let p = parse("A 0 0 -> A\n#run [ 0 ] A\n#halt B\n");
    let (_, end) = execute_program(&p, 5);
    assert_eq!(end, ExecEnd::OutOfFuel);
}

#[test]
fn runs_execute_in_order() {
    let p = parse("A 0 1 -> B\n#run [ 0 ] A\n#run [ 0 ] A\n#halt B\n");
    let (out, end) = execute_program(&p, 1000);
    assert_eq!(end, ExecEnd::Done);
    let trace = String::from_utf8(out).unwrap();
    assert_eq!(trace.matches("#run [ 0 ] A\n").count(), 2);
    assert_eq!(trace.matches(" -- HALT -- with B").count(), 2);
}

#[test]
fn default_halt_state_halts_interpreter() {
    // P8: an instruction whose next state is HALT halts the run even
    // without a #halt directive.
    let p = parse("A 0 1 -> HALT\n#run [ 0 ] A\n");
    let (out, end) = execute_program(&p, 1000);
    assert_eq!(end, ExecEnd::Done);
    assert!(String::from_utf8(out)
        .unwrap()
        .contains(" -- HALT -- with HALT"));
}

#[test]
fn compiler_rejects_multi_run_programs() {
    // P7: two #run directives are rejected before anything is emitted.
    let p = parse("A 0 1 -> B\n#run [ 0 ] A\n#run [ 1 ] A\n#halt B\n");
    let mut c = Compiler::default();
    assert_eq!(c.compile_program(&p), Err(CompileErr::MultiRun));
    let p = parse("A 0 1 -> B\n#halt B\n");
    let mut c = Compiler::default();
    assert_eq!(c.compile_program(&p), Err(CompileErr::MultiRun));
}

#[test]
fn compiler_rejects_wide_tape_symbols() {
    let p = parse("A 0 1 -> B\n#run [ ab ] A\n#halt B\n");
    let mut c = Compiler::default();
    assert_eq!(c.compile_program(&p), Err(CompileErr::WideSym));
}

#[test]
fn compiler_rejects_wide_instruction_symbols() {
    // Any multi-byte symbol is unsupported, in instruction fields too.
    let p = parse("St 0 1 -> B\n#run [ 0 ] St\n#halt B\n");
    let mut c = Compiler::default();
    assert_eq!(c.compile_program(&p), Err(CompileErr::WideSym));
    let p = parse("A 0 xy -> B\n#run [ 0 ] A\n#halt B\n");
    let mut c = Compiler::default();
    assert_eq!(c.compile_program(&p), Err(CompileErr::WideSym));
}

#[test]
fn compiler_emits_deduplicated_constants_and_sized_routine() {
    let p = parse("A 0 1 -> B\nB 1 0 -> C\n#run [ 0 1 ] A\n#halt C\n");
    let mut c = Compiler::default();
    let out = c.compile_program(&p).expect("program should compile");
    let text = String::from_utf8(out).unwrap();
    assert!(text.starts_with("format ELF64\nsection '.data' writeable\n"));
    // Fixed constants carry their given labels.
    assert!(text.contains("    str_bra: db 91\n"));
    assert!(text.contains("    str_nl: db 10\n"));
    assert!(text.contains("    str_halted: db 32,45,45,32,72,65,76,84,32,45,45,32\n"));
    // Symbol constants are written once per unique value: `0` and `1`
    // appear in instructions and on the tape, `B` twice in instructions.
    assert_eq!(text.matches("    str_0: db 48\n").count(), 1);
    assert_eq!(text.matches("    str_1: db 49\n").count(), 1);
    assert_eq!(text.matches("    str_B: db 66\n").count(), 1);
    // The tape buffer is filled cell by cell.
    assert!(text.contains("    mov byte [tape + 0], '0'\n"));
    assert!(text.contains("    mov byte [tape + 1], '1'\n"));
    // The printing routine is specialized to a two-cell tape: the
    // closing bracket lands at offset (2 + 1) * 2 = 6.
    assert!(text.contains("    mov byte [print_buf+6], ']'\n"));
    assert!(text.contains("    mov byte [print_buf+7], 10\n"));
    // The print of the whole line covers ((2 + 1) * 2 + 1) * 2 bytes.
    assert!(text.contains("    mov rdx, 14\n    mov rsi, print_buf\n"));
    assert!(text.contains("    mov rax, 60\n    mov rdi, 0\n    syscall\n"));
    assert!(text.contains("tape_print:\n"));
}

#[test]
fn run_command_requires_symbol_state() {
    let err = parse_source(b"#run [ 0 ] ->\n".to_vec(), "t").unwrap_err();
    let msg = String::from_utf8(err.render()).unwrap();
    assert!(msg.contains("Expected Symbol but got ->"));
}

#[test]
fn run_cmd_fields_survive_parsing() {
    let p = parse("#run [ 'a b' c ] Start\n");
    let run: &RunCmd = &p.runs[0];
    assert_eq!(run.tape, vec![sym("a b"), sym("c")]);
    assert_eq!(run.state, sym("Start"));
}

#[test]
fn parsed_instr_equality() {
    let a = Instr {
        state: sym("A"),
        read: sym("0"),
        write: sym("1"),
        dir: Dir::Right,
        next_state: sym("B"),
    };
    let p = parse("A 0 1 -> B\n");
    assert_eq!(p.program[0], a);
}

#[test]
fn zero_fuel_prints_only_the_header() {
    let p = parse("A 0 1 -> B\n#run [ 0 ] A\n#halt B\n");
    let mut out: Vec<u8> = Vec::new();
    let end = run_one(&p.program, &p.halt_syms, &p.runs[0], 0, &mut out);
    assert_eq!(end, ExecEnd::OutOfFuel);
    assert_eq!(String::from_utf8(out).unwrap(), "#run [ 0 ] A\n");
}

#[test]
fn parse_error_at_end_of_input() {
    // The grammar ends every statement with a newline; a line cut short
    // at the end of input reports EOF.
    let err = parse_source(b"A 0 1 -> B".to_vec(), "t").unwrap_err();
    let msg = String::from_utf8(err.render()).unwrap();
    assert_eq!(msg, "1:11: Expected new line but got EOF");
}
