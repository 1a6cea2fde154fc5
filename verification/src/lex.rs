//! The lexer: converts one line of source text into a sequence of
//! span-tagged tokens, stopping at the first lexical error.
//!
//! The lexer's behaviour is specified by `lex`, a recursive function over the
//! line's characters that tracks byte offsets exactly; `tokenize` is proved
//! to follow it.

use vstd::prelude::*;
use vstd::string::StrSliceExecFns;
use crate::diag::{Diag, DiagView};
use crate::span::{Span, SpanView, Spanned, SpannedView};

verus! {

broadcast use vstd::string::group_string_axioms;

// ---------------------------------------------------------------------------
// Character classes
// ---------------------------------------------------------------------------

/// Whether a character has the Unicode `Alphabetic` property; the name for
/// what `char::is_alphabetic` returns.
pub uninterp spec fn char_is_alphabetic(c: char) -> bool;

/// Relies on char::is_alphabetic: whether a character has the Unicode
/// `Alphabetic` property depends on the character alone.
#[verifier::external_body]
fn is_alphabetic_ch(c: char) -> (r: bool)
    ensures
        r == char_is_alphabetic(c),
{
    c.is_alphabetic()
}

/// Whether a character is Unicode-alphanumeric; the name for what
/// `char::is_alphanumeric` returns.
pub uninterp spec fn char_is_alphanumeric(c: char) -> bool;

/// Relies on char::is_alphanumeric: whether a character is alphanumeric
/// depends on the character alone.
#[verifier::external_body]
fn is_alphanumeric_ch(c: char) -> (r: bool)
    ensures
        r == char_is_alphanumeric(c),
{
    c.is_alphanumeric()
}

/// A valid identifier start: `_` or an alphabetic character.
pub open spec fn ident_start(c: char) -> bool {
    c == '_' || char_is_alphabetic(c)
}

/// Returns `true` if the character is a valid identifier start.
pub fn is_ident_start(c: char) -> (r: bool)
    ensures
        r == ident_start(c),
{
    c == '_' || is_alphabetic_ch(c)
}

/// A valid identifier continuation: an alphanumeric character.
pub open spec fn ident_char(c: char) -> bool {
    char_is_alphanumeric(c)
}

/// Returns `true` if the character is a valid identifier character.
pub fn is_ident_char(c: char) -> (r: bool)
    ensures
        r == ident_char(c),
{
    is_alphanumeric_ch(c)
}

/// The Unicode `White_Space` code points, exactly the characters that
/// `char::is_whitespace` recognizes.
pub open spec fn space_char(c: char) -> bool {
    let u = c as u32;
    u == 0x20 || (0x09 <= u && u <= 0x0D) || u == 0x85 || u == 0xA0 || u == 0x1680 || (0x2000 <= u
        && u <= 0x200A) || u == 0x2028 || u == 0x2029 || u == 0x202F || u == 0x205F || u == 0x3000
}

/// Whitespace test over the `White_Space` table.
fn is_space(c: char) -> (r: bool)
    ensures
        r == space_char(c),
{
    let u = c as u32;
    u == 0x20 || (0x09 <= u && u <= 0x0D) || u == 0x85 || u == 0xA0 || u == 0x1680 || (0x2000 <= u
        && u <= 0x200A) || u == 0x2028 || u == 0x2029 || u == 0x202F || u == 0x205F || u == 0x3000
}

/// A hexadecimal digit: `0-9`, `a-f` or `A-F`.
pub open spec fn is_hex_digit(c: char) -> bool {
    let u = c as u32;
    (0x30 <= u && u <= 0x39) || (0x61 <= u && u <= 0x66) || (0x41 <= u && u <= 0x46)
}

/// The numeric value of a hexadecimal digit.
pub open spec fn hex_digit_val(c: char) -> nat {
    let u = c as u32;
    if 0x30 <= u && u <= 0x39 {
        (u - 0x30) as nat
    } else if 0x61 <= u && u <= 0x66 {
        (u - 0x61 + 10) as nat
    } else if 0x41 <= u && u <= 0x46 {
        (u - 0x41 + 10) as nat
    } else {
        0
    }
}

/// Reads a character as a hexadecimal digit, if it is one.
fn hex_digit(c: char) -> (r: Option<u8>)
    ensures
        match r {
            Some(d) => is_hex_digit(c) && d == hex_digit_val(c),
            None => !is_hex_digit(c),
        },
{
    let u = c as u32;
    if 0x30 <= u && u <= 0x39 {
        Some((u - 0x30) as u8)
    } else if 0x61 <= u && u <= 0x66 {
        Some((u - 0x61 + 10) as u8)
    } else if 0x41 <= u && u <= 0x46 {
        Some((u - 0x41 + 10) as u8)
    } else {
        None
    }
}

// ---------------------------------------------------------------------------
// Byte widths: spans are measured in bytes, not characters
// ---------------------------------------------------------------------------

/// How many bytes the UTF-8 encoding of a character occupies.
pub open spec fn char_width(c: char) -> nat {
    if (c as u32) < 0x80 {
        1
    } else if (c as u32) < 0x800 {
        2
    } else if (c as u32) < 0x10000 {
        3
    } else {
        4
    }
}

/// Computes the UTF-8 width of a character.
pub(crate) fn char_width_exec(c: char) -> (w: usize)
    ensures
        w == char_width(c),
{
    let u = c as u32;
    if u < 0x80 {
        1
    } else if u < 0x800 {
        2
    } else if u < 0x10000 {
        3
    } else {
        4
    }
}

/// The length in bytes of the UTF-8 encoding of a character sequence.
pub open spec fn byte_len(s: Seq<char>) -> nat
    decreases s.len(),
{
    if s.len() == 0 {
        0
    } else {
        char_width(s[0]) + byte_len(s.drop_first())
    }
}

/// Byte lengths add over a split of the sequence.
pub proof fn lemma_byte_len_split(s: Seq<char>, k: int)
    requires
        0 <= k <= s.len(),
    ensures
        byte_len(s) == byte_len(s.take(k)) + byte_len(s.skip(k)),
    decreases k,
{
    if k == 0 {
        assert(s.take(0) =~= Seq::<char>::empty());
        assert(s.skip(0) =~= s);
    } else {
        assert(s.take(k).drop_first() =~= s.drop_first().take(k - 1));
        assert(s.skip(k) =~= s.drop_first().skip(k - 1));
        assert(s.take(k)[0] == s[0]);
        assert(byte_len(s.take(k)) == char_width(s[0]) + byte_len(s.drop_first().take(k - 1)));
        lemma_byte_len_split(s.drop_first(), k - 1);
    }
}

/// A prefix is no longer than the whole.
pub proof fn lemma_byte_len_prefix(s: Seq<char>, k: int)
    requires
        0 <= k <= s.len(),
    ensures
        byte_len(s.take(k)) <= byte_len(s),
{
    lemma_byte_len_split(s, k);
}

/// Extending a prefix by one character adds that character's width.
pub proof fn lemma_byte_len_snoc(s: Seq<char>, i: int)
    requires
        0 <= i < s.len(),
    ensures
        byte_len(s.take(i + 1)) == byte_len(s.take(i)) + char_width(s[i]),
{
    let t = s.take(i + 1);
    lemma_byte_len_split(t, i);
    assert(t.take(i) =~= s.take(i));
    assert(t.skip(i) =~= seq![s[i]]);
    assert(byte_len(seq![s[i]]) == char_width(s[i])) by {
        assert(seq![s[i]].drop_first() =~= Seq::<char>::empty());
        assert(byte_len(Seq::<char>::empty()) == 0);
        assert(seq![s[i]].len() == 1);
    }
}

/// Every character's encoding takes at most four bytes, so a line's byte
/// length is at most four times its character count.
pub proof fn lemma_byte_len_bound(s: Seq<char>)
    ensures
        byte_len(s) <= 4 * s.len(),
    decreases s.len(),
{
    if s.len() > 0 {
        lemma_byte_len_bound(s.drop_first());
    }
}

/// The byte length of a middle piece, from the byte offsets of its ends.
pub proof fn lemma_byte_len_mid(s: Seq<char>, i: int, j: int)
    requires
        0 <= i <= j <= s.len(),
    ensures
        byte_len(s.take(j)) == byte_len(s.take(i)) + byte_len(s.subrange(i, j)),
{
    let t = s.take(j);
    lemma_byte_len_split(t, i);
    assert(t.take(i) =~= s.take(i));
    assert(t.skip(i) =~= s.subrange(i, j));
}

// ---------------------------------------------------------------------------
// Tokens
// ---------------------------------------------------------------------------

/// The ghost image of a token.
pub ghost enum TokenView {
    Dot,
    Colon,
    BracketOpen,
    BracketClose,
    Ident(Seq<char>),
    Literal(u8),
}

/// A token in the input.
#[derive(Debug, Clone, PartialEq, Eq)]
pub enum Token {
    /// `.`
    Dot,
    /// `:`
    Colon,
    /// `[`
    BracketOpen,
    /// `]`
    BracketClose,
    /// An identifier: a string of alphanumeric characters or `_` whose first
    /// character is `_` or an alphabetic one.
    Ident(String),
    /// A number literal already converted to its value.
    Literal(u8),
}

impl View for Token {
    type V = TokenView;

    open spec fn view(&self) -> TokenView {
        match self {
            Token::Dot => TokenView::Dot,
            Token::Colon => TokenView::Colon,
            Token::BracketOpen => TokenView::BracketOpen,
            Token::BracketClose => TokenView::BracketClose,
            Token::Ident(s) => TokenView::Ident(s@),
            Token::Literal(v) => TokenView::Literal(*v),
        }
    }
}

impl DeepView for Token {
    type V = TokenView;

    open spec fn deep_view(&self) -> TokenView {
        self.view()
    }
}

// ---------------------------------------------------------------------------
// The specification lexer
// ---------------------------------------------------------------------------

/// What lexing a line yields: the token images, or the image of the first
/// error's diagnostic.
#[verifier::ext_equal]
pub ghost enum LexOutcome {
    Toks(Seq<SpannedView<TokenView>>),
    Fail(DiagView),
}

/// Prepends one token to a lexing outcome; an error passes through.
pub open spec fn lex_push(t: SpannedView<TokenView>, r: LexOutcome) -> LexOutcome {
    match r {
        LexOutcome::Toks(ts) => LexOutcome::Toks(seq![t] + ts),
        LexOutcome::Fail(d) => LexOutcome::Fail(d),
    }
}

/// Prepends already-lexed tokens to a lexing outcome; an error passes
/// through.
pub open spec fn lex_push_all(ts: Seq<SpannedView<TokenView>>, r: LexOutcome) -> LexOutcome {
    match r {
        LexOutcome::Toks(us) => LexOutcome::Toks(ts + us),
        LexOutcome::Fail(d) => LexOutcome::Fail(d),
    }
}

proof fn lemma_lex_push_all_push(ts: Seq<SpannedView<TokenView>>, t: SpannedView<TokenView>, r: LexOutcome)
    ensures
        lex_push_all(ts, lex_push(t, r)) == lex_push_all(ts.push(t), r),
{
    match r {
        LexOutcome::Toks(us) => {
            assert(ts + (seq![t] + us) =~= ts.push(t) + us);
        },
        LexOutcome::Fail(d) => {},
    }
}

/// The diagnostic for a character that cannot start a token.
pub open spec fn invalid_start_diag(lo: int, hi: int) -> DiagView {
    DiagView {
        msg: "invalid token start character"@,
        span: Some(SpanView { lo, hi }),
        notes: Seq::empty(),
    }
}

/// The diagnostic for a `$` with no hexadecimal digits after it.
pub open spec fn empty_literal_diag(lo: int) -> DiagView {
    DiagView { msg: "empty literal"@, span: Some(SpanView { lo, hi: lo + 1 }), notes: Seq::empty() }
}

/// The diagnostic for a literal whose value exceeds one byte.
pub open spec fn overflow_diag(lo: int, hi: int) -> DiagView {
    DiagView {
        msg: "this literal's value overflows `u8`"@,
        span: Some(SpanView { lo, hi }),
        notes: seq![
            "only values between 0 and 255 (`$FF`) are allowed"@,
            "numbers are specified in hexadecimal"@,
        ],
    }
}

/// The first position at or after `i` that does not hold a hexadecimal
/// digit.
pub open spec fn hex_end(s: Seq<char>, i: int) -> int
    decreases s.len() - i when 0 <= i <= s.len()
{
    if i >= s.len() {
        i
    } else if !is_hex_digit(s[i]) {
        i
    } else {
        hex_end(s, i + 1)
    }
}

/// The first position at or after `i` that does not hold an identifier
/// character.
pub open spec fn ident_end(s: Seq<char>, i: int) -> int
    decreases s.len() - i when 0 <= i <= s.len()
{
    if i >= s.len() {
        i
    } else if !ident_char(s[i]) {
        i
    } else {
        ident_end(s, i + 1)
    }
}

proof fn lemma_hex_end_bounds(s: Seq<char>, i: int)
    requires
        0 <= i <= s.len(),
    ensures
        i <= hex_end(s, i) <= s.len(),
    decreases s.len() - i,
{
    if i < s.len() && is_hex_digit(s[i]) {
        lemma_hex_end_bounds(s, i + 1);
    }
}

proof fn lemma_ident_end_bounds(s: Seq<char>, i: int)
    requires
        0 <= i <= s.len(),
    ensures
        i <= ident_end(s, i) <= s.len(),
    decreases s.len() - i,
{
    if i < s.len() && ident_char(s[i]) {
        lemma_ident_end_bounds(s, i + 1);
    }
}

/// The value of the hexadecimal digit run `s[i..j)`.
pub open spec fn hex_val(s: Seq<char>, i: int, j: int) -> nat
    decreases j - i when i <= j
{
    if j <= i {
        0
    } else {
        16 * hex_val(s, i, j - 1) + hex_digit_val(s[j - 1])
    }
}

/// Lexes the line `s` from character position `i`, which sits at byte
/// offset `off`. The rules, in priority order: `.`, `:`, `[`, `]` are
/// single-character tokens; `$` begins a hexadecimal literal of at most one
/// byte; `;` ends the line as a comment; whitespace is skipped; a character
/// that starts an identifier begins one; anything else is an error.
pub open spec fn lex_from(s: Seq<char>, i: int, off: int) -> LexOutcome
    decreases s.len() - i when 0 <= i <= s.len() via lex_from_decreases
{
    if i >= s.len() {
        LexOutcome::Toks(Seq::empty())
    } else {
        let c = s[i];
        if c == '.' {
            lex_push(
                SpannedView { data: TokenView::Dot, span: SpanView { lo: off, hi: off + 1 } },
                lex_from(s, i + 1, off + 1),
            )
        } else if c == ':' {
            lex_push(
                SpannedView { data: TokenView::Colon, span: SpanView { lo: off, hi: off + 1 } },
                lex_from(s, i + 1, off + 1),
            )
        } else if c == '[' {
            lex_push(
                SpannedView {
                    data: TokenView::BracketOpen,
                    span: SpanView { lo: off, hi: off + 1 },
                },
                lex_from(s, i + 1, off + 1),
            )
        } else if c == ']' {
            lex_push(
                SpannedView {
                    data: TokenView::BracketClose,
                    span: SpanView { lo: off, hi: off + 1 },
                },
                lex_from(s, i + 1, off + 1),
            )
        } else if c == '$' {
            let j = hex_end(s, i + 1);
            let hi = off + byte_len(s.subrange(i, j));
            if j == i + 1 {
                LexOutcome::Fail(empty_literal_diag(off))
            } else if hex_val(s, i + 1, j) > 255 {
                LexOutcome::Fail(overflow_diag(off, hi))
            } else {
                lex_push(
                    SpannedView {
                        data: TokenView::Literal(hex_val(s, i + 1, j) as u8),
                        span: SpanView { lo: off, hi },
                    },
                    lex_from(s, j, hi),
                )
            }
        } else if c == ';' {
            LexOutcome::Toks(Seq::empty())
        } else if space_char(c) {
            lex_from(s, i + 1, off + char_width(c))
        } else if ident_start(c) {
            let j = ident_end(s, i + 1);
            let hi = off + byte_len(s.subrange(i, j));
            lex_push(
                SpannedView { data: TokenView::Ident(s.subrange(i, j)), span: SpanView { lo: off, hi } },
                lex_from(s, j, hi),
            )
        } else {
            LexOutcome::Fail(invalid_start_diag(off, off + char_width(c)))
        }
    }
}

#[via_fn]
proof fn lex_from_decreases(s: Seq<char>, i: int, off: int) {
    if 0 <= i < s.len() {
        lemma_hex_end_bounds(s, i + 1);
        lemma_ident_end_bounds(s, i + 1);
    }
}

/// Lexing a whole line: `lex_from` started at its beginning.
pub open spec fn lex(s: Seq<char>) -> LexOutcome {
    lex_from(s, 0, 0)
}

// ---------------------------------------------------------------------------
// Laws of the lexer
// ---------------------------------------------------------------------------

proof fn lemma_hex_end_all(s: Seq<char>, i: int)
    requires
        0 <= i <= s.len(),
        forall|t: int| i <= t < s.len() ==> is_hex_digit(s[t]),
    ensures
        hex_end(s, i) == s.len(),
    decreases s.len() - i,
{
    if i < s.len() {
        lemma_hex_end_all(s, i + 1);
    }
}

proof fn lemma_byte_len_width1(s: Seq<char>)
    requires
        forall|t: int| 0 <= t < s.len() ==> char_width(s[t]) == 1,
    ensures
        byte_len(s) == s.len(),
    decreases s.len(),
{
    if s.len() > 0 {
        assert(forall|t: int|
            0 <= t < s.drop_first().len() ==> char_width(#[trigger] s.drop_first()[t]) == 1);
        lemma_byte_len_width1(s.drop_first());
    }
}

/// Lexing a line that is exactly one hex literal, `$` followed by one or
/// more hexadecimal digits: when the digits' numeric value fits in a byte
/// (however many digits were written), the lexer yields exactly one
/// `Literal` token carrying that value and spanning the whole line; when
/// the value exceeds a byte, the lexer fails with the overflow diagnostic
/// spanning the whole literal.
pub proof fn lemma_lex_hex_literal(s: Seq<char>)
    requires
        s.len() >= 2,
        s[0] == '$',
        forall|t: int| 1 <= t < s.len() ==> is_hex_digit(s[t]),
    ensures
        hex_val(s, 1, s.len() as int) <= 255 ==> lex(s) == LexOutcome::Toks(
            seq![
                SpannedView {
                    data: TokenView::Literal(hex_val(s, 1, s.len() as int) as u8),
                    span: SpanView { lo: 0, hi: s.len() as int },
                },
            ],
        ),
        hex_val(s, 1, s.len() as int) > 255 ==> lex(s) == LexOutcome::Fail(
            overflow_diag(0, s.len() as int),
        ),
{
    let n = s.len() as int;
    lemma_hex_end_all(s, 1);
    assert(forall|t: int| 0 <= t < s.len() ==> char_width(#[trigger] s[t]) == 1);
    assert(s.subrange(0, n) =~= s);
    lemma_byte_len_width1(s);
    if hex_val(s, 1, n) <= 255 {
        let tok = SpannedView {
            data: TokenView::Literal(hex_val(s, 1, n) as u8),
            span: SpanView { lo: 0, hi: n },
        };
        assert(lex_from(s, n, n) == LexOutcome::Toks(Seq::empty()));
        assert(lex(s) == lex_push(tok, lex_from(s, n, n)));
        assert(seq![tok] + Seq::<SpannedView<TokenView>>::empty() =~= seq![tok]);
    }
}

/// Lexing a line of whitespace and/or a `;`-comment: a line whose
/// characters up to position `k` are all whitespace, and which ends there
/// or continues with `;`, lexes to the empty token sequence.
pub proof fn lemma_lex_blank_line(s: Seq<char>, k: int)
    requires
        0 <= k <= s.len(),
        forall|t: int| 0 <= t < k ==> space_char(s[t]),
        k == s.len() || s[k] == ';',
    ensures
        lex(s) == LexOutcome::Toks(Seq::empty()),
{
    lemma_lex_blank_from(s, k, 0, 0);
}

proof fn lemma_lex_blank_from(s: Seq<char>, k: int, i: int, off: int)
    requires
        0 <= i <= k <= s.len(),
        forall|t: int| i <= t < k ==> space_char(s[t]),
        k == s.len() || s[k] == ';',
    ensures
        lex_from(s, i, off) == LexOutcome::Toks(Seq::empty()),
    decreases k - i,
{
    if i < k {
        lemma_lex_blank_from(s, k, i + 1, off + char_width(s[i]) as int);
    }
}

// ---------------------------------------------------------------------------
// The executable lexer
// ---------------------------------------------------------------------------

/// Collects a string's characters into a vector.
pub(crate) fn chars_of(s: &str) -> (v: Vec<char>)
    ensures
        v@ == s@,
{
    let n = s.unicode_len();
    let mut v: Vec<char> = Vec::new();
    let mut i: usize = 0;
    while i < n
        invariant
            n == s@.len(),
            i <= n,
            v@ == s@.take(i as int),
        decreases n - i,
    {
        v.push(s.get_char(i));
        i = i + 1;
        proof {
            assert(v@ =~= s@.take(i as int));
        }
    }
    proof {
        assert(v@ =~= s@);
    }
    v
}

/// Converts a line into a list of tokens.
///
/// If the line is ill-formed, the first error is returned as `Err`. The
/// result is exactly what the specification lexer `lex` yields on the
/// line's characters; in particular every token carries the byte-exact
/// half-open span it occupied in the line.
#[verifier::loop_isolation(false)]
pub fn tokenize(line: &str) -> (r: Result<Vec<Spanned<Token>>, Diag>)
    requires
        byte_len(line@) <= usize::MAX,
    ensures
        match r {
            Ok(toks) => lex(line@) == LexOutcome::Toks(toks.deep_view()),
            Err(d) => lex(line@) == LexOutcome::Fail(d@),
        },
{
    let chars = chars_of(line);
    let n = chars.len();
    let mut toks: Vec<Spanned<Token>> = Vec::new();
    let mut i: usize = 0;
    let mut off: usize = 0;
    proof {
        assert(line@.take(0) =~= Seq::<char>::empty());
        assert(byte_len(Seq::<char>::empty()) == 0);
        assert(toks.deep_view() =~= Seq::<SpannedView<TokenView>>::empty());
        match lex(line@) {
            LexOutcome::Toks(us) => {
                assert(toks.deep_view() + us =~= us);
            },
            LexOutcome::Fail(d) => {},
        }
    }
    loop
        invariant
            i <= n,
            off == byte_len(line@.take(i as int)),
            lex(line@) == lex_push_all(toks.deep_view(), lex_from(line@, i as int, off as int)),
        decreases n - i,
    {
        if i >= n {
            proof {
                assert(lex_from(line@, i as int, off as int) == LexOutcome::Toks(
                    Seq::empty(),
                ));
                assert(toks.deep_view() + Seq::<SpannedView<TokenView>>::empty()
                    =~= toks.deep_view());
            }
            return Ok(toks);
        }
        let c = chars[i];
        let ghost gi = i as int;
        let ghost goff = off as int;
        if c == '.' || c == ':' || c == '[' || c == ']' {
            let tok = if c == '.' {
                Token::Dot
            } else if c == ':' {
                Token::Colon
            } else if c == '[' {
                Token::BracketOpen
            } else {
                Token::BracketClose
            };
            let ghost tv = SpannedView { data: tok@, span: SpanView { lo: goff, hi: goff + 1 } };
            proof {
                lemma_byte_len_snoc(line@, gi);
                lemma_byte_len_prefix(line@, gi + 1);
                assert(char_width(line@[gi]) == 1);
                assert(lex_from(line@, gi, goff) == lex_push(
                    tv,
                    lex_from(line@, gi + 1, goff + 1),
                ));
                lemma_lex_push_all_push(toks.deep_view(), tv, lex_from(line@, gi + 1, goff + 1));
            }
            let ghost dv = toks.deep_view();
            toks.push(Spanned { data: tok, span: Span::new(off, off + 1) });
            proof {
                assert(toks.deep_view() =~= dv.push(tv));
            }
            i = i + 1;
            off = off + 1;
        } else if c == '$' {
            proof {
                lemma_byte_len_snoc(line@, gi);
                lemma_byte_len_prefix(line@, gi + 1);
                assert(char_width(line@[gi]) == 1);
            }
            let mut j = i + 1;
            let mut acc: u32 = 0;
            loop
                invariant
                    gi + 1 <= j as int <= n,
                    hex_end(line@, gi + 1) == hex_end(line@, j as int),
                    byte_len(line@.take(j as int)) == goff + (j as int - gi),
                    acc <= 256,
                    acc < 256 ==> acc == hex_val(line@, gi + 1, j as int),
                    (acc == 256) <==> hex_val(line@, gi + 1, j as int) > 255,
                decreases n - j,
            {
                if j >= n {
                    proof {
                        assert(hex_end(line@, j as int) == j as int);
                    }
                    break;
                }
                let d: u8;
                match hex_digit(chars[j]) {
                    Some(dd) => {
                        d = dd;
                    },
                    None => {
                        proof {
                            assert(hex_end(line@, j as int) == j as int);
                        }
                        break;
                    },
                }
                proof {
                    assert(is_hex_digit(line@[j as int]));
                    assert(hex_end(line@, j as int) == hex_end(line@, j as int + 1));
                    assert(hex_val(line@, gi + 1, j as int + 1) == 16 * hex_val(
                        line@,
                        gi + 1,
                        j as int,
                    ) + hex_digit_val(line@[j as int]));
                    lemma_byte_len_snoc(line@, j as int);
                    lemma_byte_len_prefix(line@, j as int + 1);
                    assert(char_width(line@[j as int]) == 1);
                }
                let v = acc * 16 + (d as u32);
                acc = if v > 255 {
                    256
                } else {
                    v
                };
                j = j + 1;
            }
            proof {
                lemma_byte_len_prefix(line@, j as int);
                lemma_byte_len_mid(line@, gi, j as int);
                assert(byte_len(line@.subrange(gi, j as int)) == j as int - gi);
            }
            if j == i + 1 {
                let diag = Diag::span_error(Span::new(off, off + 1), "empty literal".to_owned());
                proof {
                    assert(lex_from(line@, gi, goff) == LexOutcome::Fail(empty_literal_diag(goff)));
                    assert(diag@ =~= empty_literal_diag(goff));
                }
                return Err(diag);
            } else if acc > 255 {
                let hi_off = off + (j - i);
                let diag = Diag::span_error(
                    Span::new(off, hi_off),
                    "this literal's value overflows `u8`".to_owned(),
                ).add_note("only values between 0 and 255 (`$FF`) are allowed".to_owned()).add_note(
                    "numbers are specified in hexadecimal".to_owned(),
                );
                proof {
                    assert(lex_from(line@, gi, goff) == LexOutcome::Fail(
                        overflow_diag(goff, goff + (j as int - gi)),
                    ));
                    assert(diag@.notes =~= overflow_diag(goff, goff + (j as int - gi)).notes);
                    assert(diag@ =~= overflow_diag(goff, goff + (j as int - gi)));
                }
                return Err(diag);
            } else {
                let ghost tv = SpannedView {
                    data: TokenView::Literal(acc as u8),
                    span: SpanView { lo: goff, hi: goff + (j as int - gi) },
                };
                proof {
                    assert(hex_val(line@, gi + 1, j as int) == acc);
                    assert(lex_from(line@, gi, goff) == lex_push(
                        tv,
                        lex_from(line@, j as int, goff + (j as int - gi)),
                    ));
                    lemma_lex_push_all_push(
                        toks.deep_view(),
                        tv,
                        lex_from(line@, j as int, goff + (j as int - gi)),
                    );
                }
                let ghost dv = toks.deep_view();
                let hi_off = off + (j - i);
                toks.push(Spanned { data: Token::Literal(acc as u8), span: Span::new(off, hi_off) });
                proof {
                    assert(toks.deep_view() =~= dv.push(tv));
                }
                i = j;
                off = hi_off;
            }
        } else if c == ';' {
            proof {
                assert(lex_from(line@, gi, goff) == LexOutcome::Toks(Seq::empty()));
                assert(toks.deep_view() + Seq::<SpannedView<TokenView>>::empty()
                    =~= toks.deep_view());
            }
            return Ok(toks);
        } else if is_space(c) {
            let w = char_width_exec(c);
            proof {
                lemma_byte_len_snoc(line@, gi);
                lemma_byte_len_prefix(line@, gi + 1);
            }
            i = i + 1;
            off = off + w;
        } else if is_ident_start(c) {
            let w0 = char_width_exec(c);
            proof {
                lemma_byte_len_snoc(line@, gi);
                lemma_byte_len_prefix(line@, gi + 1);
            }
            let mut j = i + 1;
            let mut end_off = off + w0;
            loop
                invariant
                    gi + 1 <= j as int <= n,
                    ident_end(line@, gi + 1) == ident_end(line@, j as int),
                    end_off == byte_len(line@.take(j as int)),
                decreases n - j,
            {
                if j >= n {
                    proof {
                        assert(ident_end(line@, j as int) == j as int);
                    }
                    break;
                }
                let cj = chars[j];
                if !is_ident_char(cj) {
                    proof {
                        assert(ident_end(line@, j as int) == j as int);
                    }
                    break;
                }
                let wj = char_width_exec(cj);
                proof {
                    assert(ident_end(line@, j as int) == ident_end(line@, j as int + 1));
                    lemma_byte_len_snoc(line@, j as int);
                    lemma_byte_len_prefix(line@, j as int + 1);
                }
                end_off = end_off + wj;
                j = j + 1;
            }
            let name = line.substring_char(i, j).to_owned();
            let ghost tv = SpannedView {
                data: TokenView::Ident(line@.subrange(gi, j as int)),
                span: SpanView { lo: goff, hi: end_off as int },
            };
            proof {
                lemma_byte_len_mid(line@, gi, j as int);
                assert(end_off as int == goff + byte_len(line@.subrange(gi, j as int)));
                assert(lex_from(line@, gi, goff) == lex_push(
                    tv,
                    lex_from(line@, j as int, end_off as int),
                ));
                lemma_lex_push_all_push(
                    toks.deep_view(),
                    tv,
                    lex_from(line@, j as int, end_off as int),
                );
            }
            let ghost dv = toks.deep_view();
            toks.push(Spanned { data: Token::Ident(name), span: Span::new(off, end_off) });
            proof {
                assert(toks.deep_view() =~= dv.push(tv));
            }
            i = j;
            off = end_off;
        } else {
            let w = char_width_exec(c);
            proof {
                lemma_byte_len_snoc(line@, gi);
                lemma_byte_len_prefix(line@, gi + 1);
            }
            let diag = Diag::span_error(
                Span::new(off, off + w),
                "invalid token start character".to_owned(),
            );
            proof {
                assert(lex_from(line@, gi, goff) == LexOutcome::Fail(
                    invalid_start_diag(goff, goff + char_width(line@[gi])),
                ));
                assert(diag@ =~= invalid_start_diag(goff, goff + w as int));
            }
            return Err(diag);
        }
    }
}

} // verus!
