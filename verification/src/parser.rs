//! Recursive-descent parser with one token of lookahead: recognizes
//! transition instructions and the `#run` / `#halt` directives, and
//! builds the program model.

use vstd::prelude::*;
use vstd::string::*;

use crate::bytes::dec_rep;
use crate::bytes::push_bytes;
use crate::bytes::push_dec;
use crate::bytes::push_lit;
use crate::lexer::kind_bytes;

use crate::lexer::lemma_next_token_advances;
use crate::lexer::spec_next_token;
use crate::lexer::Lexer;
use crate::lexer::LexerV;
use crate::lexer::Token;
use crate::lexer::TokenKind;
use crate::lexer::TokenResult;
use crate::lexer::TokenV;
use crate::lexer::TokV;

verus! {

/// The direction the head moves after a step.
#[derive(Clone, Copy, Debug, PartialEq, Eq, Structural)]
pub enum Dir {
    Left,
    Right,
}

/// A transition rule: in `state`, reading `read`, write `write`, move
/// the head in `dir`, and continue in `next_state`.
#[derive(Clone, Debug, PartialEq, Eq)]
pub struct Instr {
    pub state: Vec<u8>,
    pub read: Vec<u8>,
    pub write: Vec<u8>,
    pub dir: Dir,
    pub next_state: Vec<u8>,
}

/// Model of a transition rule.
pub ghost struct InstrV {
    pub state: Seq<u8>,
    pub read: Seq<u8>,
    pub write: Seq<u8>,
    pub dir: Dir,
    pub next_state: Seq<u8>,
}

impl View for Instr {
    type V = InstrV;

    open spec fn view(&self) -> InstrV {
        InstrV {
            state: self.state@,
            read: self.read@,
            write: self.write@,
            dir: self.dir,
            next_state: self.next_state@,
        }
    }
}

/// A `#run` directive: an initial tape and a start state.
#[derive(Clone, Debug, PartialEq, Eq)]
pub struct RunCmd {
    pub tape: Vec<Vec<u8>>,
    pub state: Vec<u8>,
}

/// Model of a run directive.
pub ghost struct RunV {
    pub tape: Seq<Seq<u8>>,
    pub state: Seq<u8>,
}

/// The views of a sequence of byte vectors.
pub open spec fn seqs_view(v: Seq<Vec<u8>>) -> Seq<Seq<u8>> {
    v.map_values(|x: Vec<u8>| x@)
}

impl View for RunCmd {
    type V = RunV;

    open spec fn view(&self) -> RunV {
        RunV { tape: seqs_view(self.tape@), state: self.state@ }
    }
}

/// A `#halt` directive: the named halting states.
#[derive(Clone, Debug, PartialEq, Eq)]
pub struct HaltCmd {
    pub states: Vec<Vec<u8>>,
}

impl View for HaltCmd {
    type V = Seq<Seq<u8>>;

    open spec fn view(&self) -> Seq<Seq<u8>> {
        seqs_view(self.states@)
    }
}

/// A parse error: the token kinds that were acceptable and what the
/// lexer actually produced, with its location.
#[derive(Clone, Debug)]
pub struct ParseErr {
    pub expected: Vec<TokenKind>,
    pub got: TokenResult,
}

/// Model of a parse error.
pub ghost struct ErrV {
    pub expected: Seq<TokenKind>,
    pub got: TokV,
}

impl View for ParseErr {
    type V = ErrV;

    open spec fn view(&self) -> ErrV {
        ErrV { expected: self.expected@, got: self.got@ }
    }
}

/// The location an outcome carries.
pub open spec fn tok_loc(t: TokV) -> crate::lexer::LocV {
    match t {
        TokV::Eof { loc } => loc,
        TokV::Unknown { loc, .. } => loc,
        TokV::UnclosedStr { loc } => loc,
        TokV::Valid(tv) => tv.loc,
    }
}

/// The first `i` acceptable kinds, joined by ` or `.
pub open spec fn kinds_joined(ks: Seq<TokenKind>, i: int) -> Seq<u8>
    decreases i,
{
    if i <= 0 {
        Seq::empty()
    } else if i == 1 {
        kind_bytes(ks[0])
    } else {
        kinds_joined(ks, i - 1) + " or ".spec_bytes() + kind_bytes(ks[i - 1])
    }
}

/// How the found token prints in an error message.
pub open spec fn got_bytes(t: TokV) -> Seq<u8> {
    match t {
        TokV::Eof { .. } => "EOF".spec_bytes(),
        TokV::Valid(tv) => kind_bytes(tv.kind) + " `".spec_bytes() + tv.text + "`".spec_bytes(),
        TokV::Unknown { text, .. } => "unknown token `".spec_bytes() + text + "`".spec_bytes(),
        TokV::UnclosedStr { .. } => "unclosed string".spec_bytes(),
    }
}

/// How a parse error prints: the location one-based, the acceptable
/// kinds, and what was actually found.
pub open spec fn render_err(e: ErrV) -> Seq<u8> {
    dec_rep((tok_loc(e.got).row + 1) as nat) + ":".spec_bytes() + dec_rep(
        (tok_loc(e.got).col + 1) as nat,
    ) + ": Expected ".spec_bytes() + kinds_joined(e.expected, e.expected.len() as int)
        + " but got ".spec_bytes() + got_bytes(e.got)
}

impl ParseErr {
    /// The error as a printable line of bytes (without the file label,
    /// which the caller prepends): `row:col: Expected A or B but got X`.
    pub fn render(&self) -> (r: Vec<u8>)
        requires
            ({
                let loc = tok_loc(self@.got);
                loc.row + 1 <= usize::MAX && loc.col + 1 <= usize::MAX
            }),
        ensures
            r@ == render_err(self@),
    {
        let loc = match &self.got {
            TokenResult::Eof { loc } => *loc,
            TokenResult::Unknown { loc, .. } => *loc,
            TokenResult::UnclosedStr { loc } => *loc,
            TokenResult::Valid(t) => t.loc,
        };
        let mut r: Vec<u8> = Vec::new();
        push_dec(&mut r, (loc.row + 1) as u64);
        push_lit(&mut r, ":");
        push_dec(&mut r, (loc.col + 1) as u64);
        push_lit(&mut r, ": Expected ");
        let mut i: usize = 0;
        let ghost base = r@;
        proof {
            assert(r@ =~= base + kinds_joined(self@.expected, 0));
        }
        while i < self.expected.len()
            invariant
                i <= self.expected@.len(),
                r@ == base + kinds_joined(self@.expected, i as int),
            decreases self.expected@.len() - i,
        {
            if i > 0 {
                push_lit(&mut r, " or ");
            }
            match self.expected[i] {
                TokenKind::Symbol => push_lit(&mut r, "Symbol"),
                TokenKind::LeftArrow => push_lit(&mut r, "<-"),
                TokenKind::RightArrow => push_lit(&mut r, "->"),
                TokenKind::Cmd => push_lit(&mut r, "Cmd"),
                TokenKind::Bra => push_lit(&mut r, "["),
                TokenKind::Ket => push_lit(&mut r, "]"),
                TokenKind::NewLine => push_lit(&mut r, "new line"),
            }
            i = i + 1;
            assert(r@ =~= base + kinds_joined(self@.expected, i as int));
        }
        push_lit(&mut r, " but got ");
        match &self.got {
            TokenResult::Eof { .. } => push_lit(&mut r, "EOF"),
            TokenResult::Valid(t) => {
                match t.kind {
                    TokenKind::Symbol => push_lit(&mut r, "Symbol"),
                    TokenKind::LeftArrow => push_lit(&mut r, "<-"),
                    TokenKind::RightArrow => push_lit(&mut r, "->"),
                    TokenKind::Cmd => push_lit(&mut r, "Cmd"),
                    TokenKind::Bra => push_lit(&mut r, "["),
                    TokenKind::Ket => push_lit(&mut r, "]"),
                    TokenKind::NewLine => push_lit(&mut r, "new line"),
                }
                push_lit(&mut r, " `");
                push_bytes(&mut r, &t.text);
                push_lit(&mut r, "`");
            },
            TokenResult::Unknown { text, .. } => {
                push_lit(&mut r, "unknown token `");
                push_bytes(&mut r, text);
                push_lit(&mut r, "`");
            },
            TokenResult::UnclosedStr { .. } => push_lit(&mut r, "unclosed string"),
        }
        proof {
            assert(r@ =~= render_err(self@));
        }
        r
    }
}

/// A parsed program: its transition rules, its run configurations, and
/// its halting states, in source order.
#[derive(Clone, Debug)]
pub struct Program {
    pub runs: Vec<RunCmd>,
    pub halt_syms: Vec<Vec<u8>>,
    pub program: Vec<Instr>,
}

/// Model of a program.
pub ghost struct ProgV {
    pub instrs: Seq<InstrV>,
    pub runs: Seq<RunV>,
    pub halts: Seq<Seq<u8>>,
}

/// The views of a sequence of instructions.
pub open spec fn instrs_view(v: Seq<Instr>) -> Seq<InstrV> {
    v.map_values(|i: Instr| i@)
}

/// The views of a sequence of run directives.
pub open spec fn runs_view(v: Seq<RunCmd>) -> Seq<RunV> {
    v.map_values(|r: RunCmd| r@)
}

impl View for Program {
    type V = ProgV;

    open spec fn view(&self) -> ProgV {
        ProgV {
            instrs: instrs_view(self.program@),
            runs: runs_view(self.runs@),
            halts: seqs_view(self.halt_syms@),
        }
    }
}

/// The bytes of the `#run` keyword.
pub open spec fn run_kw() -> Seq<u8> {
    seq![35u8, 114u8, 117u8, 110u8]
}

/// The bytes of the `#halt` keyword.
pub open spec fn halt_kw() -> Seq<u8> {
    seq![35u8, 104u8, 97u8, 108u8, 116u8]
}

/// The default halting state, used when no `#halt` directive appears.
pub open spec fn halt_default() -> Seq<u8> {
    seq![72u8, 65u8, 76u8, 84u8]
}

/// The top-level loop's accumulator: the program collected so far and
/// whether a `#halt` directive has appeared (an explicit empty one
/// included).
pub ghost struct ItemsAcc {
    pub prog: ProgV,
    pub halt_seen: bool,
}

/// The outcome of one parsing step: a result and the lexer state after
/// it.
pub ghost struct POut<T> {
    pub res: Result<T, ErrV>,
    pub end: LexerV,
}

/// What demanding one token of a given set of kinds yields: the token
/// when the next token is valid and of one of the kinds, and otherwise
/// an error carrying that set and what was actually found.
pub open spec fn spec_expect(v: LexerV, kinds: Seq<TokenKind>) -> POut<TokenV> {
    let o = spec_next_token(v);
    match o.tok {
        TokV::Valid(t) => if kinds.contains(t.kind) {
            POut { res: Ok(t), end: o.end }
        } else {
            POut { res: Err(ErrV { expected: kinds, got: o.tok }), end: o.end }
        },
        _ => POut { res: Err(ErrV { expected: kinds, got: o.tok }), end: o.end },
    }
}

/// Demanding a token keeps the input and never moves the cursor back;
/// on success it consumes at least one byte.
pub proof fn lemma_expect_mono(v: LexerV, kinds: Seq<TokenKind>)
    requires
        v.wf(),
    ensures
        spec_expect(v, kinds).end.wf(),
        spec_expect(v, kinds).end.content == v.content,
        spec_expect(v, kinds).end.cur >= v.cur,
        spec_expect(v, kinds).res is Ok ==> spec_expect(v, kinds).end.cur > v.cur,
{
    lemma_next_token_advances(v);
}

/// A parsed transition instruction:
/// `SYMBOL SYMBOL SYMBOL ARROW SYMBOL NEWLINE`, read positionally as
/// state, read symbol, write symbol, direction, next state.
#[verifier::opaque]
pub open spec fn spec_parse_instr(v: LexerV) -> POut<InstrV> {
    let e1 = spec_expect(v, seq![TokenKind::Symbol]);
    match e1.res {
        Err(err) => POut { res: Err(err), end: e1.end },
        Ok(t1) => {
            let e2 = spec_expect(e1.end, seq![TokenKind::Symbol]);
            match e2.res {
                Err(err) => POut { res: Err(err), end: e2.end },
                Ok(t2) => {
                    let e3 = spec_expect(e2.end, seq![TokenKind::Symbol]);
                    match e3.res {
                        Err(err) => POut { res: Err(err), end: e3.end },
                        Ok(t3) => {
                            let e4 = spec_expect(
                                e3.end,
                                seq![TokenKind::LeftArrow, TokenKind::RightArrow],
                            );
                            match e4.res {
                                Err(err) => POut { res: Err(err), end: e4.end },
                                Ok(t4) => {
                                    let e5 = spec_expect(e4.end, seq![TokenKind::Symbol]);
                                    match e5.res {
                                        Err(err) => POut { res: Err(err), end: e5.end },
                                        Ok(t5) => {
                                            let e6 = spec_expect(e5.end, seq![TokenKind::NewLine]);
                                            match e6.res {
                                                Err(err) => POut { res: Err(err), end: e6.end },
                                                Ok(_) => POut {
                                                    res: Ok(
                                                        InstrV {
                                                            state: t1.text,
                                                            read: t2.text,
                                                            write: t3.text,
                                                            dir: if t4.kind
                                                                == TokenKind::LeftArrow {
                                                                Dir::Left
                                                            } else {
                                                                Dir::Right
                                                            },
                                                            next_state: t5.text,
                                                        },
                                                    ),
                                                    end: e6.end,
                                                },
                                            }
                                        },
                                    }
                                },
                            }
                        },
                    }
                },
            }
        },
    }
}

/// Parsing an instruction keeps the input and never moves the cursor
/// back; on success it consumes at least one byte.
pub proof fn lemma_parse_instr_mono(v: LexerV)
    requires
        v.wf(),
    ensures
        spec_parse_instr(v).end.wf(),
        spec_parse_instr(v).end.content == v.content,
        spec_parse_instr(v).end.cur >= v.cur,
        spec_parse_instr(v).res is Ok ==> spec_parse_instr(v).end.cur > v.cur,
{
    reveal(spec_parse_instr);
    let e1 = spec_expect(v, seq![TokenKind::Symbol]);
    lemma_expect_mono(v, seq![TokenKind::Symbol]);
    if e1.res is Ok {
        let e2 = spec_expect(e1.end, seq![TokenKind::Symbol]);
        lemma_expect_mono(e1.end, seq![TokenKind::Symbol]);
        if e2.res is Ok {
            let e3 = spec_expect(e2.end, seq![TokenKind::Symbol]);
            lemma_expect_mono(e2.end, seq![TokenKind::Symbol]);
            if e3.res is Ok {
                let e4 = spec_expect(e3.end, seq![TokenKind::LeftArrow, TokenKind::RightArrow]);
                lemma_expect_mono(e3.end, seq![TokenKind::LeftArrow, TokenKind::RightArrow]);
                if e4.res is Ok {
                    let e5 = spec_expect(e4.end, seq![TokenKind::Symbol]);
                    lemma_expect_mono(e4.end, seq![TokenKind::Symbol]);
                    if e5.res is Ok {
                        lemma_expect_mono(e5.end, seq![TokenKind::NewLine]);
                    }
                }
            }
        }
    }
}

/// The bracketed symbol list of a `#run` directive: symbols collected
/// into `acc` until a closing bracket.
#[verifier::opaque]
pub open spec fn spec_tape_syms(v: LexerV, acc: Seq<Seq<u8>>) -> POut<Seq<Seq<u8>>>
    decreases v.content.len() - v.cur,
    when v.wf()
{
    let e = spec_expect(v, seq![TokenKind::Symbol, TokenKind::Ket]);
    match e.res {
        Err(err) => POut { res: Err(err), end: e.end },
        Ok(t) => if t.kind == TokenKind::Ket {
            POut { res: Ok(acc), end: e.end }
        } else {
            proof {
                lemma_expect_mono(v, seq![TokenKind::Symbol, TokenKind::Ket]);
            }
            spec_tape_syms(e.end, acc.push(t.text))
        },
    }
}

/// Collecting tape symbols keeps the input and never moves the cursor
/// back.
pub proof fn lemma_tape_syms_mono(v: LexerV, acc: Seq<Seq<u8>>)
    requires
        v.wf(),
    ensures
        spec_tape_syms(v, acc).end.wf(),
        spec_tape_syms(v, acc).end.content == v.content,
        spec_tape_syms(v, acc).end.cur >= v.cur,
    decreases v.content.len() - v.cur,
{
    reveal(spec_tape_syms);
    let e = spec_expect(v, seq![TokenKind::Symbol, TokenKind::Ket]);
    lemma_expect_mono(v, seq![TokenKind::Symbol, TokenKind::Ket]);
    match e.res {
        Err(_) => {},
        Ok(t) => {
            if t.kind != TokenKind::Ket {
                lemma_tape_syms_mono(e.end, acc.push(t.text));
            }
        },
    }
}

/// A `#run` directive: `#run [ SYMBOL* ] SYMBOL NEWLINE` — the
/// bracketed symbols are the initial tape, the trailing symbol the
/// start state.
#[verifier::opaque]
pub open spec fn spec_parse_cmd_run(v: LexerV) -> POut<RunV> {
    let e1 = spec_expect(v, seq![TokenKind::Cmd]);
    match e1.res {
        Err(err) => POut { res: Err(err), end: e1.end },
        Ok(_) => {
            let e2 = spec_expect(e1.end, seq![TokenKind::Bra]);
            match e2.res {
                Err(err) => POut { res: Err(err), end: e2.end },
                Ok(_) => {
                    let ts = spec_tape_syms(e2.end, Seq::empty());
                    match ts.res {
                        Err(err) => POut { res: Err(err), end: ts.end },
                        Ok(tape) => {
                            let e3 = spec_expect(ts.end, seq![TokenKind::Symbol]);
                            match e3.res {
                                Err(err) => POut { res: Err(err), end: e3.end },
                                Ok(st) => {
                                    let e4 = spec_expect(e3.end, seq![TokenKind::NewLine]);
                                    match e4.res {
                                        Err(err) => POut { res: Err(err), end: e4.end },
                                        Ok(_) => POut {
                                            res: Ok(RunV { tape, state: st.text }),
                                            end: e4.end,
                                        },
                                    }
                                },
                            }
                        },
                    }
                },
            }
        },
    }
}

/// Parsing a `#run` directive keeps the input and never moves the
/// cursor back; on success it consumes at least one byte.
pub proof fn lemma_parse_cmd_run_mono(v: LexerV)
    requires
        v.wf(),
    ensures
        spec_parse_cmd_run(v).end.wf(),
        spec_parse_cmd_run(v).end.content == v.content,
        spec_parse_cmd_run(v).end.cur >= v.cur,
        spec_parse_cmd_run(v).res is Ok ==> spec_parse_cmd_run(v).end.cur > v.cur,
{
    reveal(spec_parse_cmd_run);
    let e1 = spec_expect(v, seq![TokenKind::Cmd]);
    lemma_expect_mono(v, seq![TokenKind::Cmd]);
    if e1.res is Ok {
        let e2 = spec_expect(e1.end, seq![TokenKind::Bra]);
        lemma_expect_mono(e1.end, seq![TokenKind::Bra]);
        if e2.res is Ok {
            let ts = spec_tape_syms(e2.end, Seq::empty());
            lemma_tape_syms_mono(e2.end, Seq::empty());
            if ts.res is Ok {
                let e3 = spec_expect(ts.end, seq![TokenKind::Symbol]);
                lemma_expect_mono(ts.end, seq![TokenKind::Symbol]);
                if e3.res is Ok {
                    lemma_expect_mono(e3.end, seq![TokenKind::NewLine]);
                }
            }
        }
    }
}

/// The state list of a `#halt` directive: symbols collected into `acc`
/// until the ending newline.
#[verifier::opaque]
pub open spec fn spec_halt_syms(v: LexerV, acc: Seq<Seq<u8>>) -> POut<Seq<Seq<u8>>>
    decreases v.content.len() - v.cur,
    when v.wf()
{
    let e = spec_expect(v, seq![TokenKind::NewLine, TokenKind::Symbol]);
    match e.res {
        Err(err) => POut { res: Err(err), end: e.end },
        Ok(t) => if t.kind == TokenKind::NewLine {
            POut { res: Ok(acc), end: e.end }
        } else {
            proof {
                lemma_expect_mono(v, seq![TokenKind::NewLine, TokenKind::Symbol]);
            }
            spec_halt_syms(e.end, acc.push(t.text))
        },
    }
}

/// Collecting halt states keeps the input and never moves the cursor
/// back.
pub proof fn lemma_halt_syms_mono(v: LexerV, acc: Seq<Seq<u8>>)
    requires
        v.wf(),
    ensures
        spec_halt_syms(v, acc).end.wf(),
        spec_halt_syms(v, acc).end.content == v.content,
        spec_halt_syms(v, acc).end.cur >= v.cur,
    decreases v.content.len() - v.cur,
{
    reveal(spec_halt_syms);
    let e = spec_expect(v, seq![TokenKind::NewLine, TokenKind::Symbol]);
    lemma_expect_mono(v, seq![TokenKind::NewLine, TokenKind::Symbol]);
    match e.res {
        Err(_) => {},
        Ok(t) => {
            if t.kind != TokenKind::NewLine {
                lemma_halt_syms_mono(e.end, acc.push(t.text));
            }
        },
    }
}

/// A `#halt` directive: `#halt SYMBOL* NEWLINE`.
#[verifier::opaque]
pub open spec fn spec_parse_cmd_halt(v: LexerV) -> POut<Seq<Seq<u8>>> {
    let e1 = spec_expect(v, seq![TokenKind::Cmd]);
    match e1.res {
        Err(err) => POut { res: Err(err), end: e1.end },
        Ok(_) => spec_halt_syms(e1.end, Seq::empty()),
    }
}

/// Parsing a `#halt` directive keeps the input and never moves the
/// cursor back; on success it consumes at least one byte.
pub proof fn lemma_parse_cmd_halt_mono(v: LexerV)
    requires
        v.wf(),
    ensures
        spec_parse_cmd_halt(v).end.wf(),
        spec_parse_cmd_halt(v).end.content == v.content,
        spec_parse_cmd_halt(v).end.cur >= v.cur,
        spec_parse_cmd_halt(v).res is Ok ==> spec_parse_cmd_halt(v).end.cur > v.cur,
{
    reveal(spec_parse_cmd_halt);
    let e1 = spec_expect(v, seq![TokenKind::Cmd]);
    lemma_expect_mono(v, seq![TokenKind::Cmd]);
    if e1.res is Ok {
        lemma_halt_syms_mono(e1.end, Seq::empty());
    }
}

/// The top-level loop: collects instructions, run directives and halt
/// directives (the last `#halt` wins, an empty state list included)
/// until the end of input.  Any other token at the top level is a hard
/// error expecting a symbol or a directive.
pub open spec fn spec_parse_items(v: LexerV, acc: ItemsAcc) -> POut<ItemsAcc>
    decreases v.content.len() - v.cur,
    when v.wf()
{
    let o = spec_next_token(v);
    match o.tok {
        TokV::Eof { .. } => POut { res: Ok(acc), end: v },
        TokV::Valid(t) => {
            if t.kind == TokenKind::Cmd && t.text == run_kw() {
                let c = spec_parse_cmd_run(v);
                match c.res {
                    Err(err) => POut { res: Err(err), end: c.end },
                    Ok(run) => {
                        proof {
                            lemma_parse_cmd_run_mono(v);
                        }
                        spec_parse_items(
                            c.end,
                            ItemsAcc {
                                prog: ProgV { runs: acc.prog.runs.push(run), ..acc.prog },
                                ..acc
                            },
                        )
                    },
                }
            } else if t.kind == TokenKind::Cmd && t.text == halt_kw() {
                let c = spec_parse_cmd_halt(v);
                match c.res {
                    Err(err) => POut { res: Err(err), end: c.end },
                    Ok(halts) => {
                        proof {
                            lemma_parse_cmd_halt_mono(v);
                        }
                        spec_parse_items(
                            c.end,
                            ItemsAcc { prog: ProgV { halts, ..acc.prog }, halt_seen: true },
                        )
                    },
                }
            } else if t.kind == TokenKind::Symbol {
                let c = spec_parse_instr(v);
                match c.res {
                    Err(err) => POut { res: Err(err), end: c.end },
                    Ok(instr) => {
                        proof {
                            lemma_parse_instr_mono(v);
                        }
                        spec_parse_items(
                            c.end,
                            ItemsAcc {
                                prog: ProgV { instrs: acc.prog.instrs.push(instr), ..acc.prog },
                                ..acc
                            },
                        )
                    },
                }
            } else if t.kind == TokenKind::NewLine {
                proof {
                    lemma_next_token_advances(v);
                }
                spec_parse_items(o.end, acc)
            } else {
                POut {
                    res: Err(
                        ErrV { expected: seq![TokenKind::Symbol, TokenKind::Cmd], got: o.tok },
                    ),
                    end: v,
                }
            }
        },
        _ => POut {
            res: Err(ErrV { expected: seq![TokenKind::Symbol, TokenKind::Cmd], got: o.tok }),
            end: v,
        },
    }
}

/// What parsing a whole source buffer yields: the collected program.
/// The halting set defaults to `HALT` only when no `#halt` directive
/// appeared at all; an explicit `#halt` with no states leaves the set
/// empty (the last directive wins, empty included).
pub open spec fn spec_parse_source(c: Seq<u8>) -> Result<ProgV, ErrV> {
    match spec_parse_items(init_lexer(c), empty_acc()).res {
        Err(err) => Err(err),
        Ok(a) => Ok(
            if a.halt_seen {
                a.prog
            } else {
                ProgV { halts: seq![halt_default()], ..a.prog }
            },
        ),
    }
}

/// True iff the bytes spell the `#run` keyword.
fn is_run_kw(t: &Vec<u8>) -> (r: bool)
    ensures
        r == (t@ == run_kw()),
{
    let r = t.len() == 4 && t[0] == 35 && t[1] == 114 && t[2] == 117 && t[3] == 110;
    proof {
        if r {
            assert(t@ =~= run_kw());
        }
        if t@ == run_kw() {
            assert(t@[0] == 35 && t@[1] == 114 && t@[2] == 117 && t@[3] == 110);
        }
    }
    r
}

/// True iff the bytes spell the `#halt` keyword.
fn is_halt_kw(t: &Vec<u8>) -> (r: bool)
    ensures
        r == (t@ == halt_kw()),
{
    let r = t.len() == 5 && t[0] == 35 && t[1] == 104 && t[2] == 97 && t[3] == 108 && t[4] == 116;
    proof {
        if r {
            assert(t@ =~= halt_kw());
        }
        if t@ == halt_kw() {
            assert(t@[0] == 35 && t@[1] == 104 && t@[2] == 97 && t@[3] == 108 && t@[4] == 116);
        }
    }
    r
}

/// The default halting state name, as a byte vector.
fn halt_default_vec() -> (r: Vec<u8>)
    ensures
        r@ == halt_default(),
{
    let r: Vec<u8> = vec![72u8, 65u8, 76u8, 84u8];
    proof {
        assert(r@ =~= halt_default());
    }
    r
}

/// A one-element set of acceptable token kinds.
fn kinds1(k: TokenKind) -> (r: Vec<TokenKind>)
    ensures
        r@ == seq![k],
{
    let mut r: Vec<TokenKind> = Vec::new();
    r.push(k);
    proof {
        assert(r@ =~= seq![k]);
    }
    r
}

/// A two-element set of acceptable token kinds.
fn kinds2(k1: TokenKind, k2: TokenKind) -> (r: Vec<TokenKind>)
    ensures
        r@ == seq![k1, k2],
{
    let mut r: Vec<TokenKind> = Vec::new();
    r.push(k1);
    r.push(k2);
    proof {
        assert(r@ =~= seq![k1, k2]);
    }
    r
}

/// The parser: a lexer it draws tokens from.
pub struct Parser {
    lexer: Lexer,
}

impl View for Parser {
    type V = LexerV;

    closed spec fn view(&self) -> LexerV {
        self.lexer@
    }
}

impl Parser {
    pub open spec fn wf(&self) -> bool {
        self@.wf()
    }

    pub closed spec fn file(&self) -> &'static str {
        self.lexer.file()
    }

    pub fn new(lexer: Lexer) -> (r: Parser)
        ensures
            r@ == lexer@,
            r.file() == lexer.file(),
    {
        Parser { lexer }
    }

    /// The next token, without consuming it.
    pub fn peek_token(&mut self) -> (res: TokenResult)
        requires
            old(self).wf(),
        ensures
            final(self).wf(),
            final(self)@ == old(self)@,
            final(self).file() == old(self).file(),
            res@ == spec_next_token(old(self)@).tok,
    {
        self.lexer.peek_token()
    }

    /// Consumes one token and discards it.
    pub fn skip_token(&mut self)
        requires
            old(self).wf(),
        ensures
            final(self).wf(),
            final(self)@ == spec_next_token(old(self)@).end,
            final(self).file() == old(self).file(),
    {
        let _ = self.lexer.next_token();
    }

    /// Consumes one token; it must be of one of the given kinds, else
    /// the call fails with a parse error naming that set and what was
    /// actually found.
    fn expect_token(&mut self, kinds: Vec<TokenKind>) -> (r: Result<Token, ParseErr>)
        requires
            old(self).wf(),
        ensures
            final(self).wf(),
            final(self).file() == old(self).file(),
            final(self)@ == spec_expect(old(self)@, kinds@).end,
            match r {
                Ok(t) => spec_expect(old(self)@, kinds@).res == Ok::<TokenV, ErrV>(t@),
                Err(e) => spec_expect(old(self)@, kinds@).res == Err::<TokenV, ErrV>(e@),
            },
    {
        let res = self.lexer.next_token();
        match res {
            TokenResult::Valid(tok) => {
                let mut i: usize = 0;
                let mut found = false;
                while i < kinds.len()
                    invariant
                        0 <= i <= kinds@.len(),
                        found == (exists|j: int| 0 <= j < i && kinds@[j] == tok.kind),
                    decreases kinds@.len() - i,
                {
                    if kinds[i] == tok.kind {
                        found = true;
                        assert(kinds@[i as int] == tok.kind);
                    }
                    i = i + 1;
                }
                if found {
                    assert(kinds@.contains(tok.kind));
                    Ok(tok)
                } else {
                    assert(!kinds@.contains(tok.kind));
                    Err(ParseErr { expected: kinds, got: TokenResult::Valid(tok) })
                }
            },
            other => Err(ParseErr { expected: kinds, got: other }),
        }
    }

    /// Parses one transition instruction.
    pub fn parse_instr(&mut self) -> (r: Result<Instr, ParseErr>)
        requires
            old(self).wf(),
        ensures
            final(self).wf(),
            final(self).file() == old(self).file(),
            final(self)@ == spec_parse_instr(old(self)@).end,
            match r {
                Ok(i) => spec_parse_instr(old(self)@).res == Ok::<InstrV, ErrV>(i@),
                Err(e) => spec_parse_instr(old(self)@).res == Err::<InstrV, ErrV>(e@),
            },
    {
        proof {
            reveal(spec_parse_instr);
        }
        let state = match self.expect_token(kinds1(TokenKind::Symbol)) {
            Ok(t) => t.text,
            Err(e) => return Err(e),
        };
        let read = match self.expect_token(kinds1(TokenKind::Symbol)) {
            Ok(t) => t.text,
            Err(e) => return Err(e),
        };
        let write = match self.expect_token(kinds1(TokenKind::Symbol)) {
            Ok(t) => t.text,
            Err(e) => return Err(e),
        };
        let dir = match self.expect_token(kinds2(TokenKind::LeftArrow, TokenKind::RightArrow)) {
            Ok(t) => if t.kind == TokenKind::LeftArrow {
                Dir::Left
            } else {
                Dir::Right
            },
            Err(e) => return Err(e),
        };
        let next_state = match self.expect_token(kinds1(TokenKind::Symbol)) {
            Ok(t) => t.text,
            Err(e) => return Err(e),
        };
        match self.expect_token(kinds1(TokenKind::NewLine)) {
            Ok(_) => {},
            Err(e) => return Err(e),
        };
        Ok(Instr { state, read, write, dir, next_state })
    }

    /// Parses the bracketed symbol list of a `#run` directive.
    fn parse_tape_syms(&mut self) -> (r: Result<Vec<Vec<u8>>, ParseErr>)
        requires
            old(self).wf(),
        ensures
            final(self).wf(),
            final(self).file() == old(self).file(),
            final(self)@ == spec_tape_syms(old(self)@, Seq::empty()).end,
            match r {
                Ok(tape) => spec_tape_syms(old(self)@, Seq::empty()).res == Ok::<
                    Seq<Seq<u8>>,
                    ErrV,
                >(seqs_view(tape@)),
                Err(e) => spec_tape_syms(old(self)@, Seq::empty()).res == Err::<
                    Seq<Seq<u8>>,
                    ErrV,
                >(e@),
            },
    {
        let mut tape: Vec<Vec<u8>> = Vec::new();
        proof {
            reveal(spec_tape_syms);
            assert(seqs_view(tape@) =~= Seq::<Seq<u8>>::empty());
        }
        loop
            invariant
                self.wf(),
                self.file() == old(self).file(),
                spec_tape_syms(old(self)@, Seq::empty()) == spec_tape_syms(
                    self@,
                    seqs_view(tape@),
                ),
            decreases self@.content.len() - self@.cur,
        {
            let ghost pre = self@;
            proof {
                reveal(spec_tape_syms);
                lemma_expect_mono(pre, seq![TokenKind::Symbol, TokenKind::Ket]);
            }
            match self.expect_token(kinds2(TokenKind::Symbol, TokenKind::Ket)) {
                Err(e) => {
                    return Err(e);
                },
                Ok(t) => {
                    if t.kind == TokenKind::Ket {
                        return Ok(tape);
                    }
                    let ghost old_tape = tape@;
                    tape.push(t.text);
                    proof {
                        assert(seqs_view(tape@) =~= seqs_view(old_tape).push(t.text@));
                    }
                },
            }
        }
    }

    /// Parses a `#run` directive.
    pub fn parse_cmd_run(&mut self) -> (r: Result<RunCmd, ParseErr>)
        requires
            old(self).wf(),
        ensures
            final(self).wf(),
            final(self).file() == old(self).file(),
            final(self)@ == spec_parse_cmd_run(old(self)@).end,
            match r {
                Ok(rc) => spec_parse_cmd_run(old(self)@).res == Ok::<RunV, ErrV>(rc@),
                Err(e) => spec_parse_cmd_run(old(self)@).res == Err::<RunV, ErrV>(e@),
            },
    {
        proof {
            reveal(spec_parse_cmd_run);
        }
        match self.expect_token(kinds1(TokenKind::Cmd)) {
            Ok(_) => {},
            Err(e) => return Err(e),
        };
        match self.expect_token(kinds1(TokenKind::Bra)) {
            Ok(_) => {},
            Err(e) => return Err(e),
        };
        let tape = match self.parse_tape_syms() {
            Ok(tape) => tape,
            Err(e) => return Err(e),
        };
        let state = match self.expect_token(kinds1(TokenKind::Symbol)) {
            Ok(t) => t.text,
            Err(e) => return Err(e),
        };
        match self.expect_token(kinds1(TokenKind::NewLine)) {
            Ok(_) => {},
            Err(e) => return Err(e),
        };
        Ok(RunCmd { tape, state })
    }

    /// Parses a `#halt` directive.
    pub fn parse_cmd_halt(&mut self) -> (r: Result<HaltCmd, ParseErr>)
        requires
            old(self).wf(),
        ensures
            final(self).wf(),
            final(self).file() == old(self).file(),
            final(self)@ == spec_parse_cmd_halt(old(self)@).end,
            match r {
                Ok(hc) => spec_parse_cmd_halt(old(self)@).res == Ok::<Seq<Seq<u8>>, ErrV>(hc@),
                Err(e) => spec_parse_cmd_halt(old(self)@).res == Err::<Seq<Seq<u8>>, ErrV>(e@),
            },
    {
        proof {
            reveal(spec_parse_cmd_halt);
            reveal(spec_halt_syms);
        }
        match self.expect_token(kinds1(TokenKind::Cmd)) {
            Ok(_) => {},
            Err(e) => return Err(e),
        };
        let ghost after_cmd = self@;
        let mut states: Vec<Vec<u8>> = Vec::new();
        proof {
            assert(seqs_view(states@) =~= Seq::<Seq<u8>>::empty());
        }
        loop
            invariant
                self.wf(),
                self.file() == old(self).file(),
                spec_halt_syms(after_cmd, Seq::empty()) == spec_halt_syms(
                    self@,
                    seqs_view(states@),
                ),
                spec_parse_cmd_halt(old(self)@) == spec_halt_syms(after_cmd, Seq::empty()),
            decreases self@.content.len() - self@.cur,
        {
            let ghost pre = self@;
            proof {
                reveal(spec_halt_syms);
                lemma_expect_mono(pre, seq![TokenKind::NewLine, TokenKind::Symbol]);
            }
            match self.expect_token(kinds2(TokenKind::NewLine, TokenKind::Symbol)) {
                Err(e) => {
                    return Err(e);
                },
                Ok(t) => {
                    if t.kind == TokenKind::NewLine {
                        return Ok(HaltCmd { states });
                    }
                    let ghost old_states = states@;
                    states.push(t.text);
                    proof {
                        assert(seqs_view(states@) =~= seqs_view(old_states).push(t.text@));
                    }
                },
            }
        }
    }
}

/// The lexer state at the start of a buffer.
pub open spec fn init_lexer(c: Seq<u8>) -> LexerV {
    LexerV { content: c, cur: 0, bol: 0, row: 0 }
}

/// The empty program model the top-level loop starts from.
pub open spec fn empty_prog() -> ProgV {
    ProgV { instrs: Seq::empty(), runs: Seq::empty(), halts: Seq::empty() }
}

/// The accumulator the top-level loop starts from: nothing collected,
/// no `#halt` directive seen.
pub open spec fn empty_acc() -> ItemsAcc {
    ItemsAcc { prog: empty_prog(), halt_seen: false }
}

/// When the top-level loop fails, the whole-source parse fails with the
/// same error.
proof fn lemma_source_of_items_err(c: Seq<u8>, v0: LexerV, a0: ItemsAcc, e: ErrV)
    requires
        v0 == init_lexer(c),
        a0 == empty_acc(),
        spec_parse_items(v0, a0).res == Err::<ItemsAcc, ErrV>(e),
    ensures
        spec_parse_source(c) == Err::<ProgV, ErrV>(e),
{
}

/// When the top-level loop succeeds, the whole-source parse yields its
/// program, with the halting set defaulted if no `#halt` appeared.
proof fn lemma_source_of_items_ok(c: Seq<u8>, v0: LexerV, a0: ItemsAcc, a: ItemsAcc)
    requires
        v0 == init_lexer(c),
        a0 == empty_acc(),
        spec_parse_items(v0, a0).res == Ok::<ItemsAcc, ErrV>(a),
    ensures
        spec_parse_source(c) == Ok::<ProgV, ErrV>(
            if a.halt_seen {
                a.prog
            } else {
                ProgV { halts: seq![halt_default()], ..a.prog }
            },
        ),
{
}

/// Parses a whole source buffer into a program.
#[verifier::rlimit(100)]
pub fn parse_source(content: Vec<u8>, file: &'static str) -> (r: Result<Program, ParseErr>)
    ensures
        match r {
            Ok(p) => spec_parse_source(content@) == Ok::<ProgV, ErrV>(p@),
            Err(e) => spec_parse_source(content@) == Err::<ProgV, ErrV>(e@),
        },
{
    let ghost c = content@;
    let lexer = Lexer::new(content, file);
    let mut parser = Parser::new(lexer);
    let ghost init = init_lexer(c);
    let ghost acc0 = empty_acc();

    let mut program: Vec<Instr> = Vec::new();
    let mut runs: Vec<RunCmd> = Vec::new();
    let mut halt_syms: Vec<Vec<u8>> = Vec::new();
    let mut halt_seen: bool = false;
    proof {
        assert(instrs_view(program@) =~= Seq::<InstrV>::empty());
        assert(runs_view(runs@) =~= Seq::<RunV>::empty());
        assert(seqs_view(halt_syms@) =~= Seq::<Seq<u8>>::empty());
    }
    loop
        invariant
            c == content@,
            init == init_lexer(c),
            acc0 == empty_acc(),
            parser.wf(),
            parser@.content == c,
            spec_parse_items(init, acc0) == spec_parse_items(
                parser@,
                ItemsAcc {
                    prog: ProgV {
                        instrs: instrs_view(program@),
                        runs: runs_view(runs@),
                        halts: seqs_view(halt_syms@),
                    },
                    halt_seen,
                },
            ),
        decreases parser@.content.len() - parser@.cur,
    {
        let ghost pre = parser@;
        let ghost acc = ItemsAcc {
            prog: ProgV {
                instrs: instrs_view(program@),
                runs: runs_view(runs@),
                halts: seqs_view(halt_syms@),
            },
            halt_seen,
        };
        let token = parser.peek_token();
        match token {
            TokenResult::Eof { .. } => {
                proof {
                    assert(spec_next_token(pre).tok is Eof);
                    assert(spec_parse_items(pre, acc) == POut::<ItemsAcc> {
                        res: Ok(acc),
                        end: pre,
                    });
                    assert(spec_parse_items(init, acc0).res == Ok::<ItemsAcc, ErrV>(acc));
                }
                if !halt_seen {
                    let mut defaulted: Vec<Vec<u8>> = Vec::new();
                    defaulted.push(halt_default_vec());
                    halt_syms = defaulted;
                    proof {
                        assert(seqs_view(halt_syms@) =~= seq![halt_default()]);
                    }
                }
                let p = Program { runs, halt_syms, program };
                proof {
                    lemma_source_of_items_ok(c, init, acc0, acc);
                    assert(spec_parse_source(c) == Ok::<ProgV, ErrV>(p@));
                }
                return Ok(p);
            },
            TokenResult::Valid(t) => {
                if t.kind == TokenKind::Cmd && is_run_kw(&t.text) {
                    proof {
                        lemma_parse_cmd_run_mono(pre);
                    }
                    match parser.parse_cmd_run() {
                        Ok(rc) => {
                            let ghost old_runs = runs@;
                            runs.push(rc);
                            proof {
                                assert(runs_view(runs@) =~= runs_view(old_runs).push(rc@));
                            }
                        },
                        Err(e) => {
                            proof {
                                assert(spec_parse_items(pre, acc).res == Err::<ItemsAcc, ErrV>(e@));
                                assert(init == init_lexer(c));
                                assert(acc0 == empty_acc());
                                assert(spec_parse_items(init, acc0) == spec_parse_items(pre, acc));
                                lemma_source_of_items_err(c, init, acc0, e@);
                            }
                            return Err(e);
                        },
                    }
                } else if t.kind == TokenKind::Cmd && is_halt_kw(&t.text) {
                    proof {
                        lemma_parse_cmd_halt_mono(pre);
                    }
                    match parser.parse_cmd_halt() {
                        Ok(hc) => {
                            halt_syms = hc.states;
                            halt_seen = true;
                        },
                        Err(e) => {
                            proof {
                                assert(spec_parse_items(pre, acc).res == Err::<ItemsAcc, ErrV>(e@));
                                lemma_source_of_items_err(c, init, acc0, e@);
                            }
                            return Err(e);
                        },
                    }
                } else if t.kind == TokenKind::Symbol {
                    proof {
                        lemma_parse_instr_mono(pre);
                    }
                    match parser.parse_instr() {
                        Ok(i) => {
                            let ghost old_prog = program@;
                            program.push(i);
                            proof {
                                assert(instrs_view(program@) =~= instrs_view(old_prog).push(i@));
                            }
                        },
                        Err(e) => {
                            proof {
                                assert(spec_parse_instr(pre).res == Err::<InstrV, ErrV>(e@));
                                assert(spec_parse_items(pre, acc).res == Err::<ItemsAcc, ErrV>(e@));
                                lemma_source_of_items_err(c, init, acc0, e@);
                            }
                            return Err(e);
                        },
                    }
                } else if t.kind == TokenKind::NewLine {
                    proof {
                        lemma_next_token_advances(pre);
                    }
                    parser.skip_token();
                } else {
                    let expected = kinds2(TokenKind::Symbol, TokenKind::Cmd);
                    let e = ParseErr { expected, got: TokenResult::Valid(t) };
                    proof {
                        assert(spec_parse_items(pre, acc).res == Err::<ItemsAcc, ErrV>(e@));
                        lemma_source_of_items_err(c, init, acc0, e@);
                    }
                    return Err(e);
                }
            },
            got => {
                let expected = kinds2(TokenKind::Symbol, TokenKind::Cmd);
                let e = ParseErr { expected, got };
                proof {
                    assert(spec_parse_items(pre, acc).res == Err::<ItemsAcc, ErrV>(e@));
                    lemma_source_of_items_err(c, init, acc0, e@);
                }
                return Err(e);
            },
        }
    }
}

} // verus!
