//! The tokenizer: a state machine over decoded characters that produces one
//! classified token per call.
use vstd::prelude::*;
use vstd::string::StrSliceExecFns;
use crate::chars::{
    digit, is_alphabetic, is_numeric, is_operator, is_whitespace, is_word_char, letter,
    operator_char, string_of, white_space, word_char,
};
use crate::decoder::{decode_at, next_state, unprimed, Decoder, DecoderView, Lookahead};
use crate::token::{result_view, Error, Token, TokenType, TokenView};

verus! {

/// The continuation rule that is active while a token is being read.
#[derive(Clone, Copy, Debug, PartialEq, Eq, Structural)]
pub enum LexerMode {
    Word,
    Number,
    /// `terminated`: the closing quote has been read; `escape`: the previous
    /// character was an unescaped backslash.
    StringLiteral { terminated: bool, escape: bool },
    Operator,
}

/// The outcome of one continuation step: whether the token is complete, and
/// the mode and buffer that the token goes on with.
pub struct Step {
    pub complete: bool,
    pub mode: LexerMode,
    pub buffer: Seq<char>,
}

/// The mode that a token starting with `c` is read in, if any.
pub open spec fn start_mode(c: char) -> Option<LexerMode> {
    if letter(c) || c == '_' {
        Some(LexerMode::Word)
    } else if digit(c) {
        Some(LexerMode::Number)
    } else if c == '"' {
        Some(LexerMode::StringLiteral { terminated: false, escape: false })
    } else if operator_char(c) {
        Some(LexerMode::Operator)
    } else {
        None
    }
}

/// The buffer a token starts with: its first character, but for the
/// opening quote of a string.
pub open spec fn start_buffer(mode: LexerMode, c: char) -> Seq<char> {
    match mode {
        LexerMode::StringLiteral { .. } => Seq::empty(),
        _ => seq![c],
    }
}

/// The token is complete; the character at hand is left for the next one.
pub open spec fn done(mode: LexerMode, buff: Seq<char>) -> Step {
    Step { complete: true, mode, buffer: buff }
}

/// The token takes the character at hand and goes on in `mode`.
pub open spec fn grow(mode: LexerMode, buff: Seq<char>, c: char) -> Step {
    Step { complete: false, mode, buffer: buff.push(c) }
}

/// Words go on while letters, digits or underscores come.
pub open spec fn word_rule(buff: Seq<char>, c: char) -> Step {
    if word_char(c) {
        grow(LexerMode::Word, buff, c)
    } else {
        done(LexerMode::Word, buff)
    }
}

/// Numbers go on while digits come; a letter or underscore is an error.
pub open spec fn number_rule(buff: Seq<char>, c: char) -> Result<Step, Error> {
    if digit(c) {
        Ok(grow(LexerMode::Number, buff, c))
    } else if letter(c) || c == '_' {
        Err(Error::InvalidCharacter)
    } else {
        Ok(done(LexerMode::Number, buff))
    }
}

/// Strings take every character up to an unescaped quote, which is consumed
/// but not kept; the token completes on the character after it. A backslash
/// is kept and makes the next character plain.
pub open spec fn string_rule(terminated: bool, escape: bool, buff: Seq<char>, c: char) -> Step {
    let mode = LexerMode::StringLiteral { terminated, escape };
    if terminated {
        done(mode, buff)
    } else if escape {
        grow(LexerMode::StringLiteral { terminated: false, escape: false }, buff, c)
    } else if c == '\\' {
        grow(LexerMode::StringLiteral { terminated: false, escape: true }, buff, c)
    } else if c == '"' {
        Step {
            complete: false,
            mode: LexerMode::StringLiteral { terminated: true, escape: false },
            buffer: buff,
        }
    } else {
        grow(mode, buff, c)
    }
}

/// The operator characters that double up into one operator (`++`, `==`,
/// `&&`, `//`, `>>`).
pub open spec fn doubling_char(c: char) -> bool {
    c == '-' || c == '+' || c == '=' || c == '/' || c == '&' || c == '|' || c == '>'
}

/// Operators are read by longest match over fixed pairs: a doubled
/// character, `<=`, `>=`, `/*`, and `>>>` as the one three-character
/// operator. A `-` before a digit starts a negative number.
pub open spec fn operator_rule(buff: Seq<char>, c: char) -> Step {
    let mode = LexerMode::Operator;
    if buff.len() > 2 {
        done(mode, buff)
    } else if buff.len() == 2 {
        if buff == seq!['>', '>'] && c == '>' {
            grow(mode, buff, c)
        } else {
            done(mode, buff)
        }
    } else if buff[0] == '-' && digit(c) {
        grow(LexerMode::Number, buff, c)
    } else if buff[0] == c {
        if doubling_char(c) {
            grow(mode, buff, c)
        } else {
            done(mode, buff)
        }
    } else if (buff[0] == '<' && c == '=') || (buff[0] == '>' && c == '=') || (buff[0] == '/'
        && c == '*') {
        grow(mode, buff, c)
    } else {
        done(mode, buff)
    }
}

/// The continuation rule of `mode` on the next character `c`.
pub open spec fn rule(mode: LexerMode, buff: Seq<char>, c: char) -> Result<Step, Error> {
    match mode {
        LexerMode::Word => Ok(word_rule(buff, c)),
        LexerMode::Number => number_rule(buff, c),
        LexerMode::StringLiteral { terminated, escape } => Ok(
            string_rule(terminated, escape, buff, c),
        ),
        LexerMode::Operator => Ok(operator_rule(buff, c)),
    }
}

/// The fixed, case-sensitive keywords.
pub open spec fn keyword(s: Seq<char>) -> bool {
    s == "fn"@ || s == "true"@ || s == "false"@ || s == "u8"@ || s == "u16"@ || s == "u32"@ || s
        == "u64"@ || s == "bool"@ || s == "return"@ || s == "if"@ || s == "else"@ || s == "void"@
}

/// The token that a finished buffer makes in `mode`.
pub open spec fn token_of(mode: LexerMode, buff: Seq<char>) -> TokenView {
    let token_type = match mode {
        LexerMode::Word => if keyword(buff) {
            TokenType::Keyword
        } else {
            TokenType::Identifier
        },
        LexerMode::Number => TokenType::IntegerLiteral,
        LexerMode::StringLiteral { .. } => TokenType::StringLiteral,
        LexerMode::Operator => TokenType::Operator,
    };
    TokenView { token_type, content: buff }
}

/// The `//` that opens a line comment.
pub open spec fn is_comment(t: TokenView) -> bool {
    t.token_type == TokenType::Operator && t.content == seq!['/', '/']
}

/// Whether the decoder holds a character it decoded without error.
pub open spec fn holds_char(d: DecoderView) -> bool {
    d.fault is None && d.current is Char
}

/// Decodes on while the character at hand is whitespace.
pub open spec fn skip_whitespace_from(d: DecoderView) -> DecoderView
    decreases d.source.len() - d.pos,
{
    match d.current {
        Lookahead::Char(c) => if d.fault is None && white_space(c) {
            let n = next_state(d);
            if holds_char(n) {
                skip_whitespace_from(n)
            } else {
                n
            }
        } else {
            d
        },
        Lookahead::End => d,
    }
}

/// Decodes on until the character at hand is a newline.
pub open spec fn skip_line_from(d: DecoderView) -> DecoderView
    decreases d.source.len() - d.pos,
{
    match d.current {
        Lookahead::Char(c) => if d.fault is None && c != '\n' {
            let n = next_state(d);
            if holds_char(n) {
                skip_line_from(n)
            } else {
                n
            }
        } else {
            d
        },
        Lookahead::End => d,
    }
}

/// Reads the rest of a token in `mode`, with `buff` so far: the finished
/// mode and buffer (or the error), and the decoder after it. The end of the
/// source completes a token.
pub open spec fn scan(d: DecoderView, mode: LexerMode, buff: Seq<char>) -> (
    Result<(LexerMode, Seq<char>), Error>,
    DecoderView,
)
    decreases d.source.len() - d.pos,
{
    let n = next_state(d);
    match n.fault {
        Some(e) => (Err(e), n),
        None => match n.current {
            Lookahead::End => (Ok((mode, buff)), n),
            Lookahead::Char(c) => match rule(mode, buff, c) {
                Err(e) => (Err(e), n),
                Ok(step) => if step.complete {
                    (Ok((step.mode, step.buffer)), n)
                } else {
                    scan(n, step.mode, step.buffer)
                },
            },
        },
    }
}

/// The next token from decoder `d`, and the decoder after it. A fault from
/// an earlier step is given back as it is; otherwise whitespace is skipped,
/// a token is read, and a line comment is skipped in favour of the token
/// after it. The `InternalError` branch only makes the recursion visibly
/// well-founded: it is never taken (`next_token` proves it).
pub open spec fn lex(d: DecoderView) -> (Result<TokenView, Error>, DecoderView)
    decreases d.source.len() - d.pos,
{
    if let Some(e) = d.fault {
        (Err(e), d)
    } else {
        let d1 = skip_whitespace_from(d);
        match d1.fault {
            Some(e) => (Err(e), d1),
            None => match d1.current {
                Lookahead::End => (Err(Error::EndOfFile), d1),
                Lookahead::Char(c) => match start_mode(c) {
                    None => (Err(Error::InvalidCharacter), d1),
                    Some(mode) => {
                        let (r, d2) = scan(d1, mode, start_buffer(mode, c));
                        match r {
                            Err(e) => (Err(e), d2),
                            Ok((m, b)) => {
                                let t = token_of(m, b);
                                if is_comment(t) {
                                    let d3 = skip_line_from(d2);
                                    if d3.source == d.source && d.pos < d3.pos <= d.source.len() {
                                        lex(d3)
                                    } else {
                                        (Err(Error::InternalError), d3)
                                    }
                                } else {
                                    (Ok(t), d2)
                                }
                            },
                        }
                    },
                },
            },
        }
    }
}

/// The results of the first `n` calls of `next_token` on a tokenizer made
/// fresh over `src`, and the decoder after them.
pub open spec fn run(src: Seq<u8>, n: nat) -> (Seq<Result<TokenView, Error>>, DecoderView)
    decreases n,
{
    if n == 0 {
        (Seq::empty(), next_state(unprimed(src)))
    } else {
        let (results, d) = run(src, (n - 1) as nat);
        let (r, d2) = lex(d);
        (results.push(r), d2)
    }
}

/// Tokenizing is deterministic: two fresh tokenizers over the same bytes
/// give the same results, call for call, and are left in the same state
/// (what `tokenize` returns is `run`'s results).
pub proof fn lemma_run_deterministic(a: Seq<u8>, b: Seq<u8>, n: nat)
    requires
        a == b,
    ensures
        run(a, n) == run(b, n),
    decreases n,
{
    if n > 0 {
        lemma_run_deterministic(a, b, (n - 1) as nat);
    }
}

proof fn lemma_next_state(d: DecoderView)
    requires
        d.wf(),
    ensures
        next_state(d).wf(),
        next_state(d).source == d.source,
        d.pos <= next_state(d).pos,
        holds_char(next_state(d)) ==> d.pos < next_state(d).pos,
{
}

proof fn lemma_skip_whitespace(d: DecoderView)
    requires
        d.wf(),
    ensures
        skip_whitespace_from(d).wf(),
        skip_whitespace_from(d).source == d.source,
        d.pos <= skip_whitespace_from(d).pos,
    decreases d.source.len() - d.pos,
{
    lemma_next_state(d);
    let n = next_state(d);
    if holds_char(n) {
        lemma_skip_whitespace(n);
    }
}

proof fn lemma_skip_line(d: DecoderView)
    requires
        d.wf(),
    ensures
        skip_line_from(d).wf(),
        skip_line_from(d).source == d.source,
        d.pos <= skip_line_from(d).pos,
    decreases d.source.len() - d.pos,
{
    lemma_next_state(d);
    let n = next_state(d);
    if holds_char(n) {
        lemma_skip_line(n);
    }
}

/// A token that grew past its first buffer has moved the decoder on.
proof fn lemma_scan(d: DecoderView, mode: LexerMode, buff: Seq<char>)
    requires
        d.wf(),
    ensures
        scan(d, mode, buff).1.wf(),
        scan(d, mode, buff).1.source == d.source,
        d.pos <= scan(d, mode, buff).1.pos,
        scan(d, mode, buff).0 is Ok && scan(d, mode, buff).1.pos == d.pos ==> scan(
            d,
            mode,
            buff,
        ).0 == Ok::<(LexerMode, Seq<char>), Error>((mode, buff)),
    decreases d.source.len() - d.pos,
{
    lemma_next_state(d);
    let n = next_state(d);
    if let (None, Lookahead::Char(c)) = (n.fault, n.current) {
        if let Ok(step) = rule(mode, buff, c) {
            if !step.complete {
                lemma_scan(n, step.mode, step.buffer);
            }
        }
    }
}

/// The word rule, on the buffer.
fn handle_word(buff: &mut Vec<char>, c: char) -> (r: bool)
    ensures
        word_rule(old(buff)@, c) == (Step { complete: r, mode: LexerMode::Word, buffer: final(buff)@ }),
{
    if !is_word_char(c) {
        return true;
    }
    buff.push(c);
    false
}

/// The number rule, on the buffer.
fn handle_number(buff: &mut Vec<char>, c: char) -> (r: Result<bool, Error>)
    ensures
        number_rule(old(buff)@, c) == (match r {
            Ok(complete) => Ok(Step { complete, mode: LexerMode::Number, buffer: final(buff)@ }),
            Err(e) => Err(e),
        }),
        r is Err ==> final(buff)@ == old(buff)@,
{
    if !is_numeric(c) {
        if is_alphabetic(c) || c == '_' {
            return Err(Error::InvalidCharacter);
        }
        return Ok(true);
    }
    buff.push(c);
    Ok(false)
}

/// The string rule, on the buffer and the string mode's flags.
fn handle_string(buff: &mut Vec<char>, mode: &mut LexerMode, c: char) -> (r: bool)
    requires
        *old(mode) is StringLiteral,
    ensures
        rule(*old(mode), old(buff)@, c) == Ok::<Step, Error>(
            Step { complete: r, mode: *final(mode), buffer: final(buff)@ },
        ),
{
    if let LexerMode::StringLiteral { terminated, escape } = *mode {
        if terminated {
            true
        } else if escape {
            buff.push(c);
            *mode = LexerMode::StringLiteral { terminated: false, escape: false };
            false
        } else if c == '\\' {
            buff.push(c);
            *mode = LexerMode::StringLiteral { terminated: false, escape: true };
            false
        } else if c == '"' {
            *mode = LexerMode::StringLiteral { terminated: true, escape: false };
            false
        } else {
            buff.push(c);
            false
        }
    } else {
        true
    }
}

/// The operator rule, on the buffer; the mode turns to `Number` for a
/// negative number.
fn handle_operator(buff: &mut Vec<char>, mode: &mut LexerMode, c: char) -> (r: bool)
    requires
        old(buff)@.len() >= 1,
        *old(mode) == LexerMode::Operator,
    ensures
        operator_rule(old(buff)@, c) == (Step {
            complete: r,
            mode: *final(mode),
            buffer: final(buff)@,
        }),
{
    let first = buff[0];
    if buff.len() > 2 {
        return true;
    }
    if buff.len() == 2 {
        if buff[0] == '>' && buff[1] == '>' && c == '>' {
            assert(buff@ =~= seq!['>', '>']);
            buff.push(c);
            return false;
        }
        proof {
            if buff@ == seq!['>', '>'] {
                assert(buff@[1] == '>');
            }
        }
        return true;
    }
    if first == '-' && is_numeric(c) {
        buff.push(c);
        *mode = LexerMode::Number;
        return false;
    }
    if first == c {
        return match c {
            '-' | '+' | '=' | '/' | '&' | '|' | '>' => {
                buff.push(c);
                false
            },
            _ => true,
        };
    }
    if (first == '<' && c == '=') || (first == '>' && c == '=') || (first == '/' && c == '*') {
        buff.push(c);
        return false;
    }
    true
}

/// Whether the characters of `buff` are those of `s`.
fn chars_equal(buff: &Vec<char>, s: &str) -> (r: bool)
    ensures
        r == (buff@ == s@),
{
    let n = s.unicode_len();
    if buff.len() != n {
        return false;
    }
    let mut i: usize = 0;
    while i < n
        invariant
            n == s@.len(),
            buff@.len() == n,
            i <= n,
            buff@.subrange(0, i as int) == s@.subrange(0, i as int),
        decreases n - i,
    {
        if buff[i] != s.get_char(i) {
            return false;
        }
        i = i + 1;
        assert(buff@.subrange(0, i as int) =~= s@.subrange(0, i as int));
    }
    assert(buff@ =~= buff@.subrange(0, n as int));
    assert(s@ =~= s@.subrange(0, n as int));
    true
}

/// Whether the buffer spells one of the keywords.
fn is_keyword(buff: &Vec<char>) -> (r: bool)
    ensures
        r == keyword(buff@),
{
    chars_equal(buff, "fn") || chars_equal(buff, "true") || chars_equal(buff, "false")
        || chars_equal(buff, "u8") || chars_equal(buff, "u16") || chars_equal(buff, "u32")
        || chars_equal(buff, "u64") || chars_equal(buff, "bool") || chars_equal(buff, "return")
        || chars_equal(buff, "if") || chars_equal(buff, "else") || chars_equal(buff, "void")
}

/// A word token: a keyword if it spells one, else an identifier.
fn finalize_word(buff: &Vec<char>) -> (r: Token)
    ensures
        r@ == token_of(LexerMode::Word, buff@),
{
    let token_type = if is_keyword(buff) {
        TokenType::Keyword
    } else {
        TokenType::Identifier
    };
    Token { token_type, content: string_of(buff) }
}

/// The token that a finished buffer makes in `mode`.
fn finalize(mode: LexerMode, buff: &Vec<char>) -> (r: Token)
    ensures
        r@ == token_of(mode, buff@),
{
    match mode {
        LexerMode::Word => finalize_word(buff),
        LexerMode::Number => Token { token_type: TokenType::IntegerLiteral, content: string_of(buff) },
        LexerMode::StringLiteral { .. } => Token {
            token_type: TokenType::StringLiteral,
            content: string_of(buff),
        },
        LexerMode::Operator => Token { token_type: TokenType::Operator, content: string_of(buff) },
    }
}

/// The tokenizer: a decoder over the source, always holding the character
/// that the next token starts from.
pub struct Lexer {
    decoder: Decoder,
}

impl View for Lexer {
    type V = DecoderView;

    closed spec fn view(&self) -> DecoderView {
        self.decoder@
    }
}

impl Lexer {
    pub open spec fn wf(&self) -> bool {
        self@.wf()
    }

    /// A tokenizer over `source`, with its first character decoded (or the
    /// error that decoding it gave, which the first token then reports).
    pub fn new(source: Vec<u8>) -> (r: Lexer)
        ensures
            r.wf(),
            r@ == next_state(unprimed(source@)),
    {
        Lexer { decoder: Decoder::new(source) }
    }

    /// The character that the next token starts from, unless a fault stops it.
    pub fn current(&self) -> (r: Lookahead)
        ensures
            r == self@.current,
    {
        self.decoder.current()
    }

    /// The error of the decoder's latest step, if it failed.
    pub fn fault(&self) -> (r: Option<Error>)
        ensures
            r == self@.fault,
    {
        self.decoder.fault()
    }

    /// Decodes the next character of the source.
    fn advance(&mut self) -> (r: Result<Lookahead, Error>)
        requires
            old(self).wf(),
        ensures
            final(self).wf(),
            final(self)@ == next_state(old(self)@),
            r == decode_at(old(self)@.source, old(self)@.pos).0,
    {
        self.decoder.advance()
    }

    /// Decodes on while the character at hand is whitespace.
    fn skip_whitespace(&mut self)
        requires
            old(self).wf(),
        ensures
            final(self).wf(),
            final(self)@ == skip_whitespace_from(old(self)@),
    {
        loop
            invariant
                self.wf(),
                self@.source == old(self)@.source,
                skip_whitespace_from(self@) == skip_whitespace_from(old(self)@),
            decreases self@.source.len() - self@.pos,
        {
            if self.fault().is_some() {
                return;
            }
            match self.current() {
                Lookahead::Char(c) => {
                    if !is_whitespace(c) {
                        return;
                    }
                    match self.advance() {
                        Ok(Lookahead::Char(_)) => {},
                        _ => return,
                    }
                },
                Lookahead::End => return,
            }
        }
    }

    /// Decodes on up to the newline that ends a line comment.
    fn skip_line(&mut self)
        requires
            old(self).wf(),
        ensures
            final(self).wf(),
            final(self)@ == skip_line_from(old(self)@),
    {
        loop
            invariant
                self.wf(),
                self@.source == old(self)@.source,
                skip_line_from(self@) == skip_line_from(old(self)@),
            decreases self@.source.len() - self@.pos,
        {
            if self.fault().is_some() {
                return;
            }
            match self.current() {
                Lookahead::Char(c) => {
                    if c == '\n' {
                        return;
                    }
                    match self.advance() {
                        Ok(Lookahead::Char(_)) => {},
                        _ => return,
                    }
                },
                Lookahead::End => return,
            }
        }
    }

    /// Reads the rest of a token in `mode`, from `buff` on.
    fn read_token(&mut self, mode: LexerMode, buff: Vec<char>) -> (r: Result<
        (LexerMode, Vec<char>),
        Error,
    >)
        requires
            old(self).wf(),
            mode == LexerMode::Operator ==> buff@.len() >= 1,
        ensures
            final(self).wf(),
            ({
                let (res, d) = scan(old(self)@, mode, buff@);
                &&& final(self)@ == d
                &&& res == match r {
                    Ok((m, b)) => Ok((m, b@)),
                    Err(e) => Err(e),
                }
            }),
            r matches Err(e) ==> e != Error::InternalError,
    {
        let mut m = mode;
        let mut b = buff;
        loop
            invariant
                self.wf(),
                self@.source == old(self)@.source,
                m == LexerMode::Operator ==> b@.len() >= 1,
                scan(self@, m, b@) == scan(old(self)@, mode, buff@),
            decreases self@.source.len() - self@.pos,
        {
            proof {
                lemma_next_state(self@);
            }
            match self.advance() {
                Err(e) => return Err(e),
                Ok(Lookahead::End) => return Ok((m, b)),
                Ok(Lookahead::Char(c)) => {
                    let res = match m {
                        LexerMode::Word => Ok(handle_word(&mut b, c)),
                        LexerMode::Number => handle_number(&mut b, c),
                        LexerMode::StringLiteral { .. } => Ok(handle_string(&mut b, &mut m, c)),
                        LexerMode::Operator => Ok(handle_operator(&mut b, &mut m, c)),
                    };
                    match res {
                        Ok(complete) => {
                            if complete {
                                return Ok((m, b));
                            }
                        },
                        Err(e) => return Err(e),
                    }
                },
            }
        }
    }

    /// The next token of the source: whitespace is skipped and line
    /// comments are passed over. `Err(Error::EndOfFile)` once the source is
    /// used up; any other error when the source is malformed at this point,
    /// and the same error again while the decoder's fault stands.
    pub fn next_token(&mut self) -> (r: Result<Token, Error>)
        requires
            old(self).wf(),
        ensures
            final(self).wf(),
            lex(old(self)@) == (result_view(r), final(self)@),
            r != Err::<Token, Error>(Error::InternalError),
    {
        loop
            invariant
                self.wf(),
                self@.source == old(self)@.source,
                lex(self@) == lex(old(self)@),
            decreases self@.source.len() - self@.pos,
        {
            let ghost d0 = self@;
            if let Some(e) = self.fault() {
                return Err(e);
            }
            self.skip_whitespace();
            proof {
                lemma_skip_whitespace(d0);
            }
            if let Some(e) = self.fault() {
                return Err(e);
            }
            let c = match self.current() {
                Lookahead::End => return Err(Error::EndOfFile),
                Lookahead::Char(c) => c,
            };
            let mode = if is_alphabetic(c) || c == '_' {
                LexerMode::Word
            } else if is_numeric(c) {
                LexerMode::Number
            } else if c == '"' {
                LexerMode::StringLiteral { terminated: false, escape: false }
            } else if is_operator(c) {
                LexerMode::Operator
            } else {
                return Err(Error::InvalidCharacter);
            };
            let mut buff: Vec<char> = Vec::new();
            if !matches!(mode, LexerMode::StringLiteral { .. }) {
                buff.push(c);
            }
            assert(buff@ =~= start_buffer(mode, c));
            let ghost d1 = self@;
            let (mode, buff) = match self.read_token(mode, buff) {
                Ok(x) => x,
                Err(e) => return Err(e),
            };
            let token = finalize(mode, &buff);
            if !(token.token_type == TokenType::Operator && buff.len() == 2 && buff[0] == '/'
                && buff[1] == '/') {
                assert(!is_comment(token@));
                return Ok(token);
            }
            assert(buff@ =~= seq!['/', '/']);
            let ghost d2 = self@;
            proof {
                lemma_scan(d1, start_mode(c).unwrap(), start_buffer(start_mode(c).unwrap(), c));
            }
            self.skip_line();
            proof {
                lemma_skip_line(d2);
            }
        }
    }
}

/// The results of the first `n` calls of `next_token` on a tokenizer made
/// fresh over `source`.
pub fn tokenize(source: Vec<u8>, n: usize) -> (r: Vec<Result<Token, Error>>)
    ensures
        r@.len() == n,
        forall|i: int| 0 <= i < n ==> result_view(#[trigger] r@[i]) == run(source@, n as nat).0[i],
{
    let ghost src = source@;
    let mut lexer = Lexer::new(source);
    let mut out: Vec<Result<Token, Error>> = Vec::new();
    let mut k: usize = 0;
    while k < n
        invariant
            k <= n,
            lexer.wf(),
            out@.len() == k,
            lexer@ == run(src, k as nat).1,
            run(src, k as nat).0.len() == k,
            forall|i: int| 0 <= i < k ==> result_view(#[trigger] out@[i]) == run(src, k as nat).0[i],
        decreases n - k,
    {
        let ghost before = out@;
        let r = lexer.next_token();
        out.push(r);
        k = k + 1;
        assert forall|i: int| 0 <= i < k implies result_view(#[trigger] out@[i]) == run(
            src,
            k as nat,
        ).0[i] by {
            if i < k - 1 {
                assert(out@[i] == before[i]);
            }
        }
    }
    out
}

} // verus!
