use asm8::instr::{Arg, Instruction, Opcode};
use asm8::lex::tokenize;
use asm8::parse::{parse, parse_line, Directive, Line};
use asm8::span::Span;

fn line_of(src: &str) -> Result<Option<Line>, asm8::diag::Diag> {
    parse_line(tokenize(src).unwrap())
}

#[test]
fn byte_directive_parses() {
    let l = line_of(".byte $FF").unwrap().unwrap();
    assert_eq!(l, Line::Directive(Directive::Byte(255)));
}

#[test]
fn byte_directive_spans_whole_line_in_program() {
    let p = parse(".byte $FF").unwrap();
    assert_eq!(p.lines.len(), 1);
    assert_eq!(p.lines[0].data, Line::Directive(Directive::Byte(255)));
    assert_eq!(p.lines[0].span, Span { lo: 0, hi: 9 });
}

#[test]
fn label_parses() {
    let l = line_of(".foo:").unwrap().unwrap();
    assert_eq!(l, Line::Label("foo".to_string()));
}

#[test]
fn invalid_directive_name_anchored_at_its_span() {
    let d = line_of(".foo").unwrap_err();
    assert_eq!(d.message().as_str(), "invalid directive name 'foo'");
    assert_eq!(d.span(), Some(Span { lo: 1, hi: 4 }));
}

#[test]
fn directive_round_trip_all_values() {
    for v in 0..=255u8 {
        let d = Directive::Byte(v);
        assert_eq!(Directive::decode(d.encode()), d);
        assert_eq!(Directive::decode(v).encode(), v);
    }
}

#[test]
fn blank_and_comment_lines_yield_no_line() {
    assert_eq!(line_of("").unwrap(), None);
    assert_eq!(line_of("   ").unwrap(), None);
    assert_eq!(line_of("; only a comment").unwrap(), None);
}

#[test]
fn trailing_token_after_label_fails() {
    let d = line_of(".foo: nop").unwrap_err();
    assert_eq!(
        d.message().as_str(),
        "unexpected token, expected end of line after label"
    );
    assert_eq!(d.span(), Some(Span { lo: 6, hi: 9 }));
}

#[test]
fn dot_without_ident_fails() {
    let d = line_of(".:").unwrap_err();
    assert_eq!(d.message().as_str(), "unexpected token, expected ident");
    assert_eq!(d.span(), Some(Span { lo: 1, hi: 2 }));
}

#[test]
fn dot_at_end_of_line_fails_with_zero_width_span() {
    let d = line_of(".").unwrap_err();
    assert_eq!(d.message().as_str(), "unexpected end of line, expected ident");
    assert_eq!(d.span(), Some(Span { lo: 1, hi: 1 }));
}

#[test]
fn byte_directive_without_literal_fails() {
    let d = line_of(".byte").unwrap_err();
    assert_eq!(
        d.message().as_str(),
        "unexpected end of line, expected literal"
    );
    assert_eq!(d.span(), Some(Span { lo: 5, hi: 5 }));
    let d = line_of(".byte foo").unwrap_err();
    assert_eq!(d.message().as_str(), "unexpected token, expected literal");
    let d = line_of(".byte $1 $2").unwrap_err();
    assert_eq!(d.message().as_str(), "unexpected token, expected end of line");
}

#[test]
fn colon_at_start_of_line_fails_with_note() {
    let d = line_of(":").unwrap_err();
    assert_eq!(d.message().as_str(), "unexpected token at start of line");
    assert_eq!(d.span(), Some(Span { lo: 0, hi: 1 }));
    assert_eq!(d.notes().len(), 1);
    assert_eq!(d.notes()[0], "expected ident or '.'");
}

#[test]
fn instructions_parse_with_their_operands() {
    assert_eq!(
        line_of("nop").unwrap().unwrap(),
        Line::Instruction(Instruction::Nop)
    );
    assert_eq!(
        line_of("ldi $5").unwrap().unwrap(),
        Line::Instruction(Instruction::Ldi { v: Arg::Value(5) })
    );
    assert_eq!(
        line_of("mov $1 $2").unwrap().unwrap(),
        Line::Instruction(Instruction::Mov {
            src: Arg::Value(1),
            dst: Arg::Value(2)
        })
    );
    assert_eq!(
        line_of("jmp loop").unwrap().unwrap(),
        Line::Instruction(Instruction::Jmp {
            target: Arg::Label("loop".to_string())
        })
    );
    assert_eq!(
        line_of("sti $27 $40").unwrap().unwrap(),
        Line::Instruction(Instruction::Sti {
            v: Arg::Value(0x27),
            dst: Arg::Value(0x40)
        })
    );
    assert_eq!(
        line_of("stop").unwrap().unwrap(),
        Line::Instruction(Instruction::Stop)
    );
}

#[test]
fn unknown_mnemonic_fails() {
    let d = line_of("frob $1").unwrap_err();
    assert_eq!(d.message().as_str(), "unknown instruction 'frob'");
    assert_eq!(d.span(), Some(Span { lo: 0, hi: 4 }));
}

#[test]
fn missing_operand_fails_with_zero_width_span() {
    let d = line_of("ldi").unwrap_err();
    assert_eq!(
        d.message().as_str(),
        "unexpected end of line, expected operand"
    );
    assert_eq!(d.span(), Some(Span { lo: 3, hi: 3 }));
    let d = line_of("mov $1").unwrap_err();
    assert_eq!(
        d.message().as_str(),
        "unexpected end of line, expected operand"
    );
    assert_eq!(d.span(), Some(Span { lo: 6, hi: 6 }));
}

#[test]
fn wrong_operand_token_fails() {
    let d = line_of("ldi .").unwrap_err();
    assert_eq!(d.message().as_str(), "unexpected token, expected operand");
    assert_eq!(d.span(), Some(Span { lo: 4, hi: 5 }));
}

#[test]
fn trailing_token_after_instruction_fails() {
    let d = line_of("nop $1").unwrap_err();
    assert_eq!(d.message().as_str(), "unexpected token, expected end of line");
    assert_eq!(d.span(), Some(Span { lo: 4, hi: 6 }));
}

#[test]
fn program_collects_lines_and_skips_blanks() {
    let p = parse("nop\n\n; comment\n.byte $1\n.end:\n").unwrap();
    assert_eq!(p.lines.len(), 3);
    assert_eq!(p.lines[0].data, Line::Instruction(Instruction::Nop));
    assert_eq!(p.lines[0].span, Span { lo: 0, hi: 3 });
    assert_eq!(p.lines[1].data, Line::Directive(Directive::Byte(1)));
    assert_eq!(p.lines[1].span, Span { lo: 15, hi: 23 });
    assert_eq!(p.lines[2].data, Line::Label("end".to_string()));
    assert_eq!(p.lines[2].span, Span { lo: 24, hi: 29 });
}

#[test]
fn program_reports_every_bad_line() {
    let errs = parse("nop\n@\n.foo\nstop").unwrap_err();
    assert_eq!(errs.len(), 2);
    assert_eq!(errs[0].line_number, 1);
    assert_eq!(
        errs[0].diag.message().as_str(),
        "invalid token start character"
    );
    assert_eq!(errs[1].line_number, 2);
    assert_eq!(
        errs[1].diag.message().as_str(),
        "invalid directive name 'foo'"
    );
}

#[test]
fn crlf_line_endings_are_stripped() {
    let p = parse("nop\r\nstop").unwrap();
    assert_eq!(p.lines.len(), 2);
    assert_eq!(p.lines[0].data, Line::Instruction(Instruction::Nop));
    assert_eq!(p.lines[0].span, Span { lo: 0, hi: 3 });
    assert_eq!(p.lines[1].data, Line::Instruction(Instruction::Stop));
    assert_eq!(p.lines[1].span, Span { lo: 5, hi: 9 });
}

#[test]
fn opcode_table_agrees() {
    assert_eq!(Instruction::Ldi { v: Arg::Value(1) }.opcode(), Opcode::Ldi);
    assert_eq!(Opcode::Ldi.to_byte(), 0x11);
    assert_eq!(Opcode::Ldi.len(), 2);
    assert_eq!(Opcode::Sti.len(), 3);
    assert_eq!(Opcode::Mov.to_byte(), 0x14);
    assert_eq!(Opcode::Stop.to_byte(), 0x50);
    assert_eq!(Opcode::from_byte(0x40), Some(Opcode::Print));
    assert_eq!(Opcode::from_byte(0x60), None);
    let table = [
        Opcode::Nop,
        Opcode::Ld,
        Opcode::Ldi,
        Opcode::St,
        Opcode::Sti,
        Opcode::Mov,
        Opcode::Jmp,
        Opcode::Jz,
        Opcode::Add,
        Opcode::Addi,
        Opcode::Sub,
        Opcode::Subi,
        Opcode::Shr,
        Opcode::Shl,
        Opcode::And,
        Opcode::Andi,
        Opcode::Print,
        Opcode::Stop,
    ];
    for op in table {
        assert_eq!(Opcode::from_byte(op.to_byte()), Some(op));
    }
}

#[test]
fn diag_builder_keeps_message_span_and_notes() {
    let d = asm8::diag::Diag::error("boom".to_string());
    assert_eq!(d.message().as_str(), "boom");
    assert_eq!(d.span(), None);
    let d = asm8::diag::Diag::span_error(Span::new(1, 4), "bad".to_string())
        .add_note("first".to_string())
        .add_note("second".to_string());
    assert_eq!(d.message().as_str(), "bad");
    assert_eq!(d.span(), Some(Span { lo: 1, hi: 4 }));
    assert_eq!(d.notes().len(), 2);
    assert_eq!(d.notes()[0], "first");
    assert_eq!(d.notes()[1], "second");
}
