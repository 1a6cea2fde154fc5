//! The line parser: consumes a line's token sequence and produces a label
//! declaration, a directive, or an instruction; and the program parser,
//! which drives the lexer and line parser over a whole source text,
//! collecting every line's diagnostic.
//!
//! The parsers' behaviour is specified by `parse_line_spec` and
//! `parse_from`; the executable functions are proved to follow them.

use vstd::prelude::*;
use vstd::string::{StrSliceExecFns, StringExecFns};
use crate::diag::{Diag, DiagView};
use crate::instr::{Arg, ArgView, Instruction, InstructionView, Opcode, opcode_len};
use crate::lex::{lex, tokenize, byte_len, char_width, LexOutcome, Token, TokenView};
use crate::lex::{lemma_byte_len_snoc, lemma_byte_len_prefix, lemma_byte_len_mid};
use crate::span::{Span, SpanView, Spanned, SpannedView};

verus! {

// ---------------------------------------------------------------------------
// The parsed program representation
// ---------------------------------------------------------------------------

/// A directive: a command to the assembler itself that gets special
/// treatment.
#[derive(Debug, Clone, Copy, PartialEq, Eq, Structural)]
pub enum Directive {
    /// Tell the assembler to put this exact byte in this position of the
    /// assembled binary.
    Byte(u8),
}

/// The single byte a directive contributes to the assembled binary.
pub open spec fn encoded_directive(d: Directive) -> u8 {
    match d {
        Directive::Byte(v) => v,
    }
}

/// The directive a byte of the assembled binary decodes to.
pub open spec fn decoded_directive(b: u8) -> Directive {
    Directive::Byte(b)
}

impl Directive {
    /// Encodes the directive: `Byte(v)` contributes exactly the byte `v`.
    pub fn encode(&self) -> (b: u8)
        ensures
            b == encoded_directive(*self),
    {
        match self {
            Directive::Byte(v) => *v,
        }
    }

    /// Decodes one byte of the assembled binary back into the directive
    /// that emits it.
    pub fn decode(b: u8) -> (d: Directive)
        ensures
            d == decoded_directive(b),
    {
        Directive::Byte(b)
    }
}

/// Round trip: decoding the byte an encoded directive contributed yields
/// the directive unchanged, and encoding a decoded byte yields the byte
/// unchanged, for every value.
pub proof fn lemma_directive_round_trip(d: Directive, b: u8)
    ensures
        decoded_directive(encoded_directive(d)) == d,
        encoded_directive(decoded_directive(b)) == b,
{
}

/// The ghost image of a single line of the program.
pub ghost enum LineView {
    Label(Seq<char>),
    Directive(Directive),
    Instruction(InstructionView),
}

/// A single line of the program.
#[derive(Debug, Clone, PartialEq, Eq)]
pub enum Line {
    /// For example: `.foo:`
    Label(String),
    /// For example: `.byte $1F`
    Directive(Directive),
    /// For example: `ldi $05`
    Instruction(Instruction),
}

impl View for Line {
    type V = LineView;

    open spec fn view(&self) -> LineView {
        match self {
            Line::Label(s) => LineView::Label(s@),
            Line::Directive(d) => LineView::Directive(*d),
            Line::Instruction(i) => LineView::Instruction(i@),
        }
    }
}

impl DeepView for Line {
    type V = LineView;

    open spec fn deep_view(&self) -> LineView {
        self.view()
    }
}

// ---------------------------------------------------------------------------
// The specification line parser
// ---------------------------------------------------------------------------

/// A diagnostic with a message and a span, and no notes.
pub open spec fn plain_diag(msg: Seq<char>, lo: int, hi: int) -> DiagView {
    DiagView { msg, span: Some(SpanView { lo, hi }), notes: Seq::empty() }
}

/// The operand a token stands for: an identifier becomes a label argument,
/// a literal a value argument; nothing else is an operand.
pub open spec fn operand_of(t: TokenView) -> Option<ArgView> {
    match t {
        TokenView::Ident(s) => Some(ArgView::Label(s)),
        TokenView::Literal(v) => Some(ArgView::Value(v)),
        _ => None,
    }
}

/// The opcode a mnemonic names, if any.
pub open spec fn mnemonic_to_opcode(name: Seq<char>) -> Option<Opcode> {
    if name == "nop"@ {
        Some(Opcode::Nop)
    } else if name == "ld"@ {
        Some(Opcode::Ld)
    } else if name == "ldi"@ {
        Some(Opcode::Ldi)
    } else if name == "st"@ {
        Some(Opcode::St)
    } else if name == "sti"@ {
        Some(Opcode::Sti)
    } else if name == "mov"@ {
        Some(Opcode::Mov)
    } else if name == "jmp"@ {
        Some(Opcode::Jmp)
    } else if name == "jz"@ {
        Some(Opcode::Jz)
    } else if name == "add"@ {
        Some(Opcode::Add)
    } else if name == "addi"@ {
        Some(Opcode::Addi)
    } else if name == "sub"@ {
        Some(Opcode::Sub)
    } else if name == "subi"@ {
        Some(Opcode::Subi)
    } else if name == "shr"@ {
        Some(Opcode::Shr)
    } else if name == "shl"@ {
        Some(Opcode::Shl)
    } else if name == "and"@ {
        Some(Opcode::And)
    } else if name == "andi"@ {
        Some(Opcode::Andi)
    } else if name == "print"@ {
        Some(Opcode::Print)
    } else if name == "stop"@ {
        Some(Opcode::Stop)
    } else {
        None
    }
}

/// The instruction an opcode and its parsed operands form.
pub open spec fn instr_of(op: Opcode, args: Seq<ArgView>) -> InstructionView
    recommends
        args.len() == opcode_len(op) - 1,
{
    match op {
        Opcode::Nop => InstructionView::Nop,
        Opcode::Ld => InstructionView::Ld { src: args[0] },
        Opcode::Ldi => InstructionView::Ldi { v: args[0] },
        Opcode::St => InstructionView::St { dst: args[0] },
        Opcode::Sti => InstructionView::Sti { v: args[0], dst: args[1] },
        Opcode::Mov => InstructionView::Mov { src: args[0], dst: args[1] },
        Opcode::Jmp => InstructionView::Jmp { target: args[0] },
        Opcode::Jz => InstructionView::Jz { target: args[0] },
        Opcode::Add => InstructionView::Add { src: args[0] },
        Opcode::Addi => InstructionView::Addi { v: args[0] },
        Opcode::Sub => InstructionView::Sub { src: args[0] },
        Opcode::Subi => InstructionView::Subi { v: args[0] },
        Opcode::Shr => InstructionView::Shr,
        Opcode::Shl => InstructionView::Shl,
        Opcode::And => InstructionView::And { src: args[0] },
        Opcode::Andi => InstructionView::Andi { v: args[0] },
        Opcode::Print => InstructionView::Print { src: args[0] },
        Opcode::Stop => InstructionView::Stop,
    }
}

/// Parses the tokens as an instruction: the mnemonic names an opcode, the
/// opcode's operand count is consumed exactly, and the line must end there.
/// A missing token is reported at a zero-width span one byte past the
/// previous token's end; a wrong or extra token at its own span.
pub open spec fn parse_instruction_spec(
    name: Seq<char>,
    ts: Seq<SpannedView<TokenView>>,
) -> Result<InstructionView, DiagView>
    recommends
        ts.len() >= 1,
{
    match mnemonic_to_opcode(name) {
        None => Err(plain_diag("unknown instruction '"@ + name + "'"@, ts[0].span.lo, ts[0].span.hi)),
        Some(op) => {
            let arity = opcode_len(op) - 1;
            if arity >= 1 && ts.len() < 2 {
                Err(plain_diag(
                    "unexpected end of line, expected operand"@,
                    ts[0].span.hi,
                    ts[0].span.hi,
                ))
            } else if arity >= 1 && operand_of(ts[1].data) is None {
                Err(plain_diag("unexpected token, expected operand"@, ts[1].span.lo, ts[1].span.hi))
            } else if arity >= 2 && ts.len() < 3 {
                Err(plain_diag(
                    "unexpected end of line, expected operand"@,
                    ts[1].span.hi,
                    ts[1].span.hi,
                ))
            } else if arity >= 2 && operand_of(ts[2].data) is None {
                Err(plain_diag("unexpected token, expected operand"@, ts[2].span.lo, ts[2].span.hi))
            } else if ts.len() > 1 + arity {
                Err(plain_diag(
                    "unexpected token, expected end of line"@,
                    ts[1 + arity].span.lo,
                    ts[1 + arity].span.hi,
                ))
            } else {
                let args = if arity == 0 {
                    Seq::empty()
                } else if arity == 1 {
                    seq![operand_of(ts[1].data)->Some_0]
                } else {
                    seq![operand_of(ts[1].data)->Some_0, operand_of(ts[2].data)->Some_0]
                };
                Ok(instr_of(op, args))
            }
        },
    }
}

/// Parses the tokens as a directive named `name`. Only `byte` is defined:
/// it takes exactly one literal and nothing may follow.
pub open spec fn parse_directive_spec(
    name: Seq<char>,
    ts: Seq<SpannedView<TokenView>>,
) -> Result<Directive, DiagView>
    recommends
        ts.len() >= 2,
{
    if name == "byte"@ {
        if ts.len() < 3 {
            Err(plain_diag(
                "unexpected end of line, expected literal"@,
                ts[1].span.hi,
                ts[1].span.hi,
            ))
        } else {
            match ts[2].data {
                TokenView::Literal(v) => if ts.len() == 3 {
                    Ok(Directive::Byte(v))
                } else {
                    Err(plain_diag(
                        "unexpected token, expected end of line"@,
                        ts[3].span.lo,
                        ts[3].span.hi,
                    ))
                },
                _ => Err(plain_diag(
                    "unexpected token, expected literal"@,
                    ts[2].span.lo,
                    ts[2].span.hi,
                )),
            }
        }
    } else {
        Err(plain_diag("invalid directive name '"@ + name + "'"@, ts[1].span.lo, ts[1].span.hi))
    }
}

/// Parses one line from its tokens. An empty token list is a blank or
/// comment-only line and yields nothing. Otherwise the first token decides:
/// `.` begins a label declaration (`.name:`) or a directive, an identifier
/// begins an instruction, and anything else is an error.
pub open spec fn parse_line_spec(ts: Seq<SpannedView<TokenView>>) -> Result<
    Option<LineView>,
    DiagView,
> {
    if ts.len() == 0 {
        Ok(None)
    } else {
        match ts[0].data {
            TokenView::Dot => {
                if ts.len() < 2 {
                    Err(plain_diag(
                        "unexpected end of line, expected ident"@,
                        ts[0].span.hi,
                        ts[0].span.hi,
                    ))
                } else {
                    match ts[1].data {
                        TokenView::Ident(name) => {
                            if ts.len() >= 3 && ts[2].data == TokenView::Colon {
                                if ts.len() == 3 {
                                    Ok(Some(LineView::Label(name)))
                                } else {
                                    Err(plain_diag(
                                        "unexpected token, expected end of line after label"@,
                                        ts[3].span.lo,
                                        ts[3].span.hi,
                                    ))
                                }
                            } else {
                                match parse_directive_spec(name, ts) {
                                    Ok(d) => Ok(Some(LineView::Directive(d))),
                                    Err(e) => Err(e),
                                }
                            }
                        },
                        _ => Err(plain_diag(
                            "unexpected token, expected ident"@,
                            ts[1].span.lo,
                            ts[1].span.hi,
                        )),
                    }
                }
            },
            TokenView::Ident(name) => match parse_instruction_spec(name, ts) {
                Ok(ins) => Ok(Some(LineView::Instruction(ins))),
                Err(e) => Err(e),
            },
            _ => Err(
                DiagView {
                    msg: "unexpected token at start of line"@,
                    span: Some(ts[0].span),
                    notes: seq!["expected ident or '.'"@],
                },
            ),
        }
    }
}

// ---------------------------------------------------------------------------
// The executable line parser
// ---------------------------------------------------------------------------

/// Character-wise string equality.
fn str_eq_str(a: &str, b: &str) -> (r: bool)
    ensures
        r == (a@ == b@),
{
    let na = a.unicode_len();
    let nb = b.unicode_len();
    if na != nb {
        proof {
            if a@ == b@ {
                assert(a@.len() == b@.len());
            }
        }
        return false;
    }
    let mut i: usize = 0;
    while i < na
        invariant
            na == a@.len(),
            na == b@.len(),
            i <= na,
            forall|t: int| 0 <= t < i ==> a@[t] == b@[t],
        decreases na - i,
    {
        if a.get_char(i) != b.get_char(i) {
            proof {
                if a@ == b@ {
                    assert(a@[i as int] == b@[i as int]);
                }
            }
            return false;
        }
        i = i + 1;
    }
    proof {
        assert(a@ =~= b@);
    }
    true
}

/// Resolves a mnemonic against the opcode table.
fn mnemonic_opcode(name: &str) -> (r: Option<Opcode>)
    ensures
        r == mnemonic_to_opcode(name@),
{
    if str_eq_str(name, "nop") {
        Some(Opcode::Nop)
    } else if str_eq_str(name, "ld") {
        Some(Opcode::Ld)
    } else if str_eq_str(name, "ldi") {
        Some(Opcode::Ldi)
    } else if str_eq_str(name, "st") {
        Some(Opcode::St)
    } else if str_eq_str(name, "sti") {
        Some(Opcode::Sti)
    } else if str_eq_str(name, "mov") {
        Some(Opcode::Mov)
    } else if str_eq_str(name, "jmp") {
        Some(Opcode::Jmp)
    } else if str_eq_str(name, "jz") {
        Some(Opcode::Jz)
    } else if str_eq_str(name, "add") {
        Some(Opcode::Add)
    } else if str_eq_str(name, "addi") {
        Some(Opcode::Addi)
    } else if str_eq_str(name, "sub") {
        Some(Opcode::Sub)
    } else if str_eq_str(name, "subi") {
        Some(Opcode::Subi)
    } else if str_eq_str(name, "shr") {
        Some(Opcode::Shr)
    } else if str_eq_str(name, "shl") {
        Some(Opcode::Shl)
    } else if str_eq_str(name, "and") {
        Some(Opcode::And)
    } else if str_eq_str(name, "andi") {
        Some(Opcode::Andi)
    } else if str_eq_str(name, "print") {
        Some(Opcode::Print)
    } else if str_eq_str(name, "stop") {
        Some(Opcode::Stop)
    } else {
        None
    }
}

/// Turns an operand token into the argument it stands for.
fn arg_of_token(t: &Spanned<Token>) -> (a: Arg)
    requires
        operand_of(t.data@) is Some,
    ensures
        a@ == operand_of(t.data@)->Some_0,
{
    match &t.data {
        Token::Ident(s) => Arg::Label(s.clone()),
        Token::Literal(v) => Arg::Value(*v),
        _ => {
            proof {
                assert(false);
            }
            Arg::Value(0)
        },
    }
}

/// Whether a token can stand as an operand.
fn is_operand_token(t: &Spanned<Token>) -> (r: bool)
    ensures
        r == (operand_of(t.data@) is Some),
{
    match &t.data {
        Token::Ident(_) => true,
        Token::Literal(_) => true,
        _ => false,
    }
}

/// Parses a single instruction from the given tokens; the first token must
/// be the mnemonic identifier `name`. The first error encountered is
/// returned.
pub fn parse_instruction(name: &str, tokens: &Vec<Spanned<Token>>) -> (r: Result<Instruction, Diag>)
    requires
        tokens@.len() >= 1,
    ensures
        match r {
            Ok(ins) => parse_instruction_spec(name@, tokens.deep_view()) == Ok::<
                InstructionView,
                DiagView,
            >(ins@),
            Err(e) => parse_instruction_spec(name@, tokens.deep_view()) == Err::<
                InstructionView,
                DiagView,
            >(e@),
        },
{
    let op = match mnemonic_opcode(name) {
        Some(op) => op,
        None => {
            let mut msg = "unknown instruction '".to_owned();
            msg.append(name);
            msg.append("'");
            let d = Diag::span_error(tokens[0].span, msg);
            proof {
                assert(d@ =~= plain_diag(
                    "unknown instruction '"@ + name@ + "'"@,
                    tokens.deep_view()[0].span.lo,
                    tokens.deep_view()[0].span.hi,
                ));
            }
            return Err(d);
        },
    };
    let arity = op.len() - 1;
    if arity >= 1 {
        if tokens.len() < 2 {
            let sp = Span::new(tokens[0].span.hi, tokens[0].span.hi);
            let d = Diag::span_error(sp, "unexpected end of line, expected operand".to_owned());
            proof {
                assert(d@ =~= plain_diag(
                    "unexpected end of line, expected operand"@,
                    tokens.deep_view()[0].span.hi,
                    tokens.deep_view()[0].span.hi,
                ));
            }
            return Err(d);
        }
        if !is_operand_token(&tokens[1]) {
            let d = Diag::span_error(
                tokens[1].span,
                "unexpected token, expected operand".to_owned(),
            );
            proof {
                assert(d@ =~= plain_diag(
                    "unexpected token, expected operand"@,
                    tokens.deep_view()[1].span.lo,
                    tokens.deep_view()[1].span.hi,
                ));
            }
            return Err(d);
        }
    }
    if arity >= 2 {
        if tokens.len() < 3 {
            let sp = Span::new(tokens[1].span.hi, tokens[1].span.hi);
            let d = Diag::span_error(sp, "unexpected end of line, expected operand".to_owned());
            proof {
                assert(d@ =~= plain_diag(
                    "unexpected end of line, expected operand"@,
                    tokens.deep_view()[1].span.hi,
                    tokens.deep_view()[1].span.hi,
                ));
            }
            return Err(d);
        }
        if !is_operand_token(&tokens[2]) {
            let d = Diag::span_error(
                tokens[2].span,
                "unexpected token, expected operand".to_owned(),
            );
            proof {
                assert(d@ =~= plain_diag(
                    "unexpected token, expected operand"@,
                    tokens.deep_view()[2].span.lo,
                    tokens.deep_view()[2].span.hi,
                ));
            }
            return Err(d);
        }
    }
    if tokens.len() > 1 + arity as usize {
        let at = 1 + arity as usize;
        let d = Diag::span_error(
            tokens[at].span,
            "unexpected token, expected end of line".to_owned(),
        );
        proof {
            assert(d@ =~= plain_diag(
                "unexpected token, expected end of line"@,
                tokens.deep_view()[1 + opcode_len(op) - 1].span.lo,
                tokens.deep_view()[1 + opcode_len(op) - 1].span.hi,
            ));
        }
        return Err(d);
    }
    let ins = match op {
        Opcode::Nop => Instruction::Nop,
        Opcode::Ld => Instruction::Ld { src: arg_of_token(&tokens[1]) },
        Opcode::Ldi => Instruction::Ldi { v: arg_of_token(&tokens[1]) },
        Opcode::St => Instruction::St { dst: arg_of_token(&tokens[1]) },
        Opcode::Sti => Instruction::Sti {
            v: arg_of_token(&tokens[1]),
            dst: arg_of_token(&tokens[2]),
        },
        Opcode::Mov => Instruction::Mov {
            src: arg_of_token(&tokens[1]),
            dst: arg_of_token(&tokens[2]),
        },
        Opcode::Jmp => Instruction::Jmp { target: arg_of_token(&tokens[1]) },
        Opcode::Jz => Instruction::Jz { target: arg_of_token(&tokens[1]) },
        Opcode::Add => Instruction::Add { src: arg_of_token(&tokens[1]) },
        Opcode::Addi => Instruction::Addi { v: arg_of_token(&tokens[1]) },
        Opcode::Sub => Instruction::Sub { src: arg_of_token(&tokens[1]) },
        Opcode::Subi => Instruction::Subi { v: arg_of_token(&tokens[1]) },
        Opcode::Shr => Instruction::Shr,
        Opcode::Shl => Instruction::Shl,
        Opcode::And => Instruction::And { src: arg_of_token(&tokens[1]) },
        Opcode::Andi => Instruction::Andi { v: arg_of_token(&tokens[1]) },
        Opcode::Print => Instruction::Print { src: arg_of_token(&tokens[1]) },
        Opcode::Stop => Instruction::Stop,
    };
    Ok(ins)
}

/// Parses the given tokens as a directive named `name`; the first token
/// must be `.` and the second the directive's name. The first error
/// encountered is returned.
pub fn parse_directive(name: &str, tokens: &Vec<Spanned<Token>>) -> (r: Result<Directive, Diag>)
    requires
        tokens@.len() >= 2,
    ensures
        match r {
            Ok(d) => parse_directive_spec(name@, tokens.deep_view()) == Ok::<Directive, DiagView>(
                d,
            ),
            Err(e) => parse_directive_spec(name@, tokens.deep_view()) == Err::<Directive, DiagView>(
                e@,
            ),
        },
{
    if str_eq_str(name, "byte") {
        if tokens.len() < 3 {
            let sp = Span::new(tokens[1].span.hi, tokens[1].span.hi);
            let d = Diag::span_error(sp, "unexpected end of line, expected literal".to_owned());
            proof {
                assert(d@ =~= plain_diag(
                    "unexpected end of line, expected literal"@,
                    tokens.deep_view()[1].span.hi,
                    tokens.deep_view()[1].span.hi,
                ));
            }
            return Err(d);
        }
        match &tokens[2].data {
            Token::Literal(v) => {
                if tokens.len() == 3 {
                    Ok(Directive::Byte(*v))
                } else {
                    let d = Diag::span_error(
                        tokens[3].span,
                        "unexpected token, expected end of line".to_owned(),
                    );
                    proof {
                        assert(d@ =~= plain_diag(
                            "unexpected token, expected end of line"@,
                            tokens.deep_view()[3].span.lo,
                            tokens.deep_view()[3].span.hi,
                        ));
                    }
                    Err(d)
                }
            },
            _ => {
                let d = Diag::span_error(
                    tokens[2].span,
                    "unexpected token, expected literal".to_owned(),
                );
                proof {
                    assert(d@ =~= plain_diag(
                        "unexpected token, expected literal"@,
                        tokens.deep_view()[2].span.lo,
                        tokens.deep_view()[2].span.hi,
                    ));
                }
                Err(d)
            },
        }
    } else {
        let mut msg = "invalid directive name '".to_owned();
        msg.append(name);
        msg.append("'");
        let d = Diag::span_error(tokens[1].span, msg);
        proof {
            assert(d@ =~= plain_diag(
                "invalid directive name '"@ + name@ + "'"@,
                tokens.deep_view()[1].span.lo,
                tokens.deep_view()[1].span.hi,
            ));
        }
        Err(d)
    }
}

/// Parses a single line from tokens into a `Line`. Empty lines are returned
/// as `Ok(None)`. If the line is ill-formed, the first error is returned as
/// `Err`.
pub fn parse_line(tokens: Vec<Spanned<Token>>) -> (r: Result<Option<Line>, Diag>)
    ensures
        match r {
            Ok(l) => parse_line_spec(tokens.deep_view()) == Ok::<Option<LineView>, DiagView>(
                l.deep_view(),
            ),
            Err(e) => parse_line_spec(tokens.deep_view()) == Err::<Option<LineView>, DiagView>(e@),
        },
{
    if tokens.len() == 0 {
        return Ok(None);
    }
    match &tokens[0].data {
        Token::Dot => {
            if tokens.len() < 2 {
                let sp = Span::new(tokens[0].span.hi, tokens[0].span.hi);
                let d = Diag::span_error(sp, "unexpected end of line, expected ident".to_owned());
                proof {
                    assert(d@ =~= plain_diag(
                        "unexpected end of line, expected ident"@,
                        tokens.deep_view()[0].span.hi,
                        tokens.deep_view()[0].span.hi,
                    ));
                }
                return Err(d);
            }
            match &tokens[1].data {
                Token::Ident(name) => {
                    let colon_next = tokens.len() >= 3 && matches!(&tokens[2].data, Token::Colon);
                    if colon_next {
                        if tokens.len() == 3 {
                            Ok(Some(Line::Label(name.clone())))
                        } else {
                            let d = Diag::span_error(
                                tokens[3].span,
                                "unexpected token, expected end of line after label".to_owned(),
                            );
                            proof {
                                assert(d@ =~= plain_diag(
                                    "unexpected token, expected end of line after label"@,
                                    tokens.deep_view()[3].span.lo,
                                    tokens.deep_view()[3].span.hi,
                                ));
                            }
                            Err(d)
                        }
                    } else {
                        match parse_directive(name.as_str(), &tokens) {
                            Ok(d) => Ok(Some(Line::Directive(d))),
                            Err(e) => Err(e),
                        }
                    }
                },
                _ => {
                    let d = Diag::span_error(
                        tokens[1].span,
                        "unexpected token, expected ident".to_owned(),
                    );
                    proof {
                        assert(d@ =~= plain_diag(
                            "unexpected token, expected ident"@,
                            tokens.deep_view()[1].span.lo,
                            tokens.deep_view()[1].span.hi,
                        ));
                    }
                    Err(d)
                },
            }
        },
        Token::Ident(name) => match parse_instruction(name.as_str(), &tokens) {
            Ok(ins) => Ok(Some(Line::Instruction(ins))),
            Err(e) => Err(e),
        },
        _ => {
            let d = Diag::span_error(
                tokens[0].span,
                "unexpected token at start of line".to_owned(),
            ).add_note("expected ident or '.'".to_owned());
            proof {
                assert(d@.notes =~= seq!["expected ident or '.'"@]);
                assert(d@ =~= (DiagView {
                    msg: "unexpected token at start of line"@,
                    span: Some(tokens.deep_view()[0].span),
                    notes: seq!["expected ident or '.'"@],
                }));
            }
            Err(d)
        },
    }
}

/// A line of whitespace and/or a `;`-comment contributes nothing: it lexes
/// to the empty token sequence, and parsing an empty token sequence yields
/// no line, so such a line never becomes a program entry.
pub proof fn lemma_blank_line_no_entry(s: Seq<char>, k: int)
    requires
        0 <= k <= s.len(),
        forall|t: int| 0 <= t < k ==> crate::lex::space_char(s[t]),
        k == s.len() || s[k] == ';',
    ensures
        lex(s) == LexOutcome::Toks(Seq::empty()),
        parse_line_spec(Seq::empty()) == Ok::<Option<LineView>, DiagView>(None),
{
    crate::lex::lemma_lex_blank_line(s, k);
}

// ---------------------------------------------------------------------------
// The whole-program parser
// ---------------------------------------------------------------------------

/// The ghost image of a collected diagnostic: the 0-based source line it
/// belongs to, and the diagnostic itself.
#[verifier::ext_equal]
pub ghost struct LineDiagView {
    pub line: int,
    pub diag: DiagView,
}

/// A diagnostic paired with the 0-based number of the source line it came
/// from, so a host can render it beside that line's text.
#[derive(Debug, Clone)]
pub struct LineDiag {
    pub line_number: usize,
    pub diag: Diag,
}

impl View for LineDiag {
    type V = LineDiagView;

    open spec fn view(&self) -> LineDiagView {
        LineDiagView { line: self.line_number as int, diag: self.diag@ }
    }
}

impl DeepView for LineDiag {
    type V = LineDiagView;

    open spec fn deep_view(&self) -> LineDiagView {
        self.view()
    }
}

/// The output of parsing: the representation of a program.
#[derive(Debug, Clone)]
pub struct Program {
    pub lines: Vec<Spanned<Line>>,
}

/// What parsing a whole source text accumulates: the parsed lines, in
/// source order, and every failed line's diagnostic, in source order.
#[verifier::ext_equal]
pub ghost struct ParseAcc {
    pub lines: Seq<SpannedView<LineView>>,
    pub errs: Seq<LineDiagView>,
}

/// The position of the line break at or after `i`, or the end of the
/// input.
pub open spec fn line_end(s: Seq<char>, i: int) -> int
    decreases s.len() - i when 0 <= i <= s.len()
{
    if i >= s.len() {
        i
    } else if s[i] == '\n' {
        i
    } else {
        line_end(s, i + 1)
    }
}

proof fn lemma_line_end_bounds(s: Seq<char>, i: int)
    requires
        0 <= i <= s.len(),
    ensures
        i <= line_end(s, i) <= s.len(),
    decreases s.len() - i,
{
    if i < s.len() && s[i] != '\n' {
        lemma_line_end_bounds(s, i + 1);
    }
}

/// Parses the source from character position `i` (at byte offset `off`, on
/// 0-based line `ln`) to the end. Each line runs through the lexer and the
/// line parser; a failing line contributes its diagnostic, a blank or
/// comment-only line contributes nothing, and any other line contributes a
/// parsed entry whose span is the line's byte range in the source. A `\r`
/// immediately before the line break is not part of the line.
pub open spec fn parse_from(s: Seq<char>, i: int, off: int, ln: int) -> ParseAcc
    decreases s.len() - i when 0 <= i <= s.len() via parse_from_decreases
{
    if i >= s.len() {
        ParseAcc { lines: Seq::empty(), errs: Seq::empty() }
    } else {
        let k = line_end(s, i);
        let nexti = if k + 1 <= s.len() {
            k + 1
        } else {
            s.len() as int
        };
        let kk = if k < s.len() && i < k && s[k - 1] == '\r' {
            k - 1
        } else {
            k
        };
        let line = s.subrange(i, kk);
        let rest = parse_from(s, nexti, off + byte_len(s.subrange(i, k)) + 1, ln + 1);
        match lex(line) {
            LexOutcome::Fail(d) => ParseAcc {
                lines: rest.lines,
                errs: seq![LineDiagView { line: ln, diag: d }] + rest.errs,
            },
            LexOutcome::Toks(ts) => match parse_line_spec(ts) {
                Err(d) => ParseAcc {
                    lines: rest.lines,
                    errs: seq![LineDiagView { line: ln, diag: d }] + rest.errs,
                },
                Ok(None) => rest,
                Ok(Some(lv)) => ParseAcc {
                    lines: seq![
                        SpannedView {
                            data: lv,
                            span: SpanView { lo: off, hi: off + byte_len(line) },
                        },
                    ] + rest.lines,
                    errs: rest.errs,
                },
            },
        }
    }
}

#[via_fn]
proof fn parse_from_decreases(s: Seq<char>, i: int, off: int, ln: int) {
    if 0 <= i < s.len() {
        lemma_line_end_bounds(s, i);
    }
}

/// Prepends already-accumulated lines and diagnostics to a parse
/// accumulator.
pub open spec fn acc_cat(
    lines: Seq<SpannedView<LineView>>,
    errs: Seq<LineDiagView>,
    acc: ParseAcc,
) -> ParseAcc {
    ParseAcc { lines: lines + acc.lines, errs: errs + acc.errs }
}

proof fn lemma_acc_cat_line(
    lines: Seq<SpannedView<LineView>>,
    errs: Seq<LineDiagView>,
    x: SpannedView<LineView>,
    acc: ParseAcc,
)
    ensures
        acc_cat(lines, errs, ParseAcc { lines: seq![x] + acc.lines, errs: acc.errs }) == acc_cat(
            lines.push(x),
            errs,
            acc,
        ),
{
    assert(lines + (seq![x] + acc.lines) =~= lines.push(x) + acc.lines);
}

proof fn lemma_acc_cat_err(
    lines: Seq<SpannedView<LineView>>,
    errs: Seq<LineDiagView>,
    e: LineDiagView,
    acc: ParseAcc,
)
    ensures
        acc_cat(lines, errs, ParseAcc { lines: acc.lines, errs: seq![e] + acc.errs }) == acc_cat(
            lines,
            errs.push(e),
            acc,
        ),
{
    assert(errs + (seq![e] + acc.errs) =~= errs.push(e) + acc.errs);
}

/// Parses a source text into a program.
///
/// Every line is lexed and parsed independently; every failing line's
/// diagnostic is collected with its line number, and the parse succeeds
/// only if no line failed, so reporting is exhaustive while the result is
/// all-or-nothing. Blank and comment-only lines are not represented in the
/// returned program.
#[verifier::loop_isolation(false)]
pub fn parse(input: &str) -> (r: Result<Program, Vec<LineDiag>>)
    requires
        byte_len(input@) <= usize::MAX,
    ensures
        ({
            let acc = parse_from(input@, 0, 0, 0);
            match r {
                Ok(p) => acc.errs.len() == 0 && p.lines.deep_view() == acc.lines,
                Err(es) => acc.errs.len() > 0 && es.deep_view() == acc.errs,
            }
        }),
{
    let chars = crate::lex::chars_of(input);
    let n = chars.len();
    let mut lines_v: Vec<Spanned<Line>> = Vec::new();
    let mut errs: Vec<LineDiag> = Vec::new();
    let mut i: usize = 0;
    let mut off: usize = 0;
    let mut ln: usize = 0;
    proof {
        assert(lines_v.deep_view() =~= Seq::<SpannedView<LineView>>::empty());
        assert(errs.deep_view() =~= Seq::<LineDiagView>::empty());
        assert(acc_cat(lines_v.deep_view(), errs.deep_view(), parse_from(input@, 0, 0, 0))
            =~= parse_from(input@, 0, 0, 0));
        assert(input@.take(0) =~= Seq::<char>::empty());
        assert(byte_len(Seq::<char>::empty()) == 0);
    }
    loop
        invariant
            i <= n,
            ln <= i,
            i < n ==> off == byte_len(input@.take(i as int)),
            parse_from(input@, 0, 0, 0) == acc_cat(
                lines_v.deep_view(),
                errs.deep_view(),
                parse_from(input@, i as int, off as int, ln as int),
            ),
        decreases n - i,
    {
        if i >= n {
            break;
        }
        let ghost gi = i as int;
        let ghost goff = off as int;
        let ghost gln = ln as int;
        // Find the end of the line and its byte length.
        let mut k = i;
        let mut bl: usize = 0;
        loop
            invariant
                gi <= k as int <= n,
                line_end(input@, gi) == line_end(input@, k as int),
                byte_len(input@.take(k as int)) == goff + bl,
            decreases n - k,
        {
            if k >= n {
                proof {
                    assert(line_end(input@, k as int) == k as int);
                }
                break;
            }
            let ck = chars[k];
            if ck == '\n' {
                proof {
                    assert(line_end(input@, k as int) == k as int);
                }
                break;
            }
            let wk = crate::lex::char_width_exec(ck);
            proof {
                assert(line_end(input@, k as int) == line_end(input@, k as int + 1));
                lemma_byte_len_snoc(input@, k as int);
                lemma_byte_len_prefix(input@, k as int + 1);
            }
            bl = bl + wk;
            k = k + 1;
        }
        // Strip a carriage return immediately before the line break.
        let mut kk = k;
        let mut blk = bl;
        if k < n && k > i {
            let cprev = chars[k - 1];
            if cprev == '\r' {
                proof {
                    lemma_byte_len_snoc(input@, k as int - 1);
                    assert(char_width(input@[k as int - 1]) == 1);
                    lemma_byte_len_mid(input@, gi, k as int - 1);
                }
                kk = k - 1;
                blk = bl - 1;
            }
        }
        proof {
            lemma_byte_len_mid(input@, gi, kk as int);
            assert(byte_len(input@.subrange(gi, kk as int)) == blk);
            lemma_byte_len_mid(input@, gi, k as int);
            assert(byte_len(input@.subrange(gi, k as int)) == bl);
            lemma_byte_len_prefix(input@, kk as int);
        }
        let line_str = input.substring_char(i, kk);
        let ghost lseq = input@.subrange(gi, kk as int);
        let ghost rest = parse_from(
            input@,
            if k as int + 1 <= n as int {
                k as int + 1
            } else {
                n as int
            },
            goff + bl + 1,
            gln + 1,
        );
        let ghost dv_lines = lines_v.deep_view();
        let ghost dv_errs = errs.deep_view();
        match tokenize(line_str) {
            Err(d) => {
                let ghost dgv = d@;
                proof {
                    assert(lex(lseq) == LexOutcome::Fail(dgv));
                    assert(parse_from(input@, gi, goff, gln) == (ParseAcc {
                        lines: rest.lines,
                        errs: seq![LineDiagView { line: gln, diag: dgv }] + rest.errs,
                    }));
                    lemma_acc_cat_err(dv_lines, dv_errs, LineDiagView { line: gln, diag: dgv }, rest);
                }
                errs.push(LineDiag { line_number: ln, diag: d });
                proof {
                    assert(errs.deep_view() =~= dv_errs.push(
                        LineDiagView { line: gln, diag: dgv },
                    ));
                }
            },
            Ok(toks) => {
                let ghost tsv = toks.deep_view();
                match parse_line(toks) {
                    Err(d) => {
                        let ghost dgv = d@;
                        proof {
                            assert(lex(lseq) == LexOutcome::Toks(tsv));
                            assert(parse_line_spec(tsv) == Err::<Option<LineView>, DiagView>(dgv));
                            assert(parse_from(input@, gi, goff, gln) == (ParseAcc {
                                lines: rest.lines,
                                errs: seq![LineDiagView { line: gln, diag: dgv }] + rest.errs,
                            }));
                            lemma_acc_cat_err(
                                dv_lines,
                                dv_errs,
                                LineDiagView { line: gln, diag: dgv },
                                rest,
                            );
                        }
                        errs.push(LineDiag { line_number: ln, diag: d });
                        proof {
                            assert(errs.deep_view() =~= dv_errs.push(
                                LineDiagView { line: gln, diag: dgv },
                            ));
                        }
                    },
                    Ok(None) => {
                        proof {
                            assert(parse_from(input@, gi, goff, gln) == rest);
                        }
                    },
                    Ok(Some(l)) => {
                        let ghost lgv = l.deep_view();
                        let ghost entry = SpannedView {
                            data: lgv,
                            span: SpanView { lo: goff, hi: goff + blk },
                        };
                        proof {
                            assert(lex(lseq) == LexOutcome::Toks(tsv));
                            assert(parse_line_spec(tsv) == Ok::<Option<LineView>, DiagView>(
                                Some(lgv),
                            ));
                            assert(parse_from(input@, gi, goff, gln) == (ParseAcc {
                                lines: seq![entry] + rest.lines,
                                errs: rest.errs,
                            }));
                            lemma_acc_cat_line(dv_lines, dv_errs, entry, rest);
                        }
                        lines_v.push(Spanned { data: l, span: Span::new(off, off + blk) });
                        proof {
                            assert(lines_v.deep_view() =~= dv_lines.push(entry));
                        }
                    },
                }
            },
        }
        ln = ln + 1;
        if k >= n {
            i = n;
            proof {
                assert(rest == (ParseAcc {
                    lines: Seq::<SpannedView<LineView>>::empty(),
                    errs: Seq::<LineDiagView>::empty(),
                }));
                assert(parse_from(input@, i as int, off as int, ln as int) == (ParseAcc {
                    lines: Seq::<SpannedView<LineView>>::empty(),
                    errs: Seq::<LineDiagView>::empty(),
                }));
            }
        } else {
            proof {
                assert(input@[k as int] == '\n');
                lemma_byte_len_snoc(input@, k as int);
                assert(char_width('\n') == 1);
                lemma_byte_len_prefix(input@, k as int + 1);
            }
            off = off + bl + 1;
            i = k + 1;
        }
    }
    proof {
        assert(parse_from(input@, i as int, off as int, ln as int) == (ParseAcc {
            lines: Seq::<SpannedView<LineView>>::empty(),
            errs: Seq::<LineDiagView>::empty(),
        }));
        assert(acc_cat(
            lines_v.deep_view(),
            errs.deep_view(),
            ParseAcc {
                lines: Seq::<SpannedView<LineView>>::empty(),
                errs: Seq::<LineDiagView>::empty(),
            },
        ) =~= (ParseAcc { lines: lines_v.deep_view(), errs: errs.deep_view() }));
    }
    if errs.len() == 0 {
        Ok(Program { lines: lines_v })
    } else {
        Err(errs)
    }
}

} // verus!
