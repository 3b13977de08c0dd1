use vstd::prelude::*;

verus! {

/// Classifying `char::is_whitespace`: the result depends on the character
/// alone.
pub uninterp spec fn whitespace_char(c: char) -> bool;

/// Relies on `char::is_whitespace`: a pure classification of the character.
pub assume_specification[ char::is_whitespace ](c: char) -> (r: bool)
    ensures
        r == whitespace_char(c),
;

/// Classifying `char::is_alphanumeric`: the result depends on the character
/// alone.
pub uninterp spec fn alphanumeric_char(c: char) -> bool;

/// Relies on `char::is_alphanumeric`: a pure classification of the character.
pub assume_specification[ char::is_alphanumeric ](c: char) -> (r: bool)
    ensures
        r == alphanumeric_char(c),
;

/// Relies on `String::push`: appends the given character to the end of the
/// string.
pub assume_specification[ String::push ](s: &mut String, c: char)
    ensures
        final(s)@ == old(s)@.push(c),
;

/// The mathematical model of a token kind.
pub ghost enum TokenKindModel {
    LParen,
    RParen,
    Comma,
    Dot,
    Minus,
    Plus,
    Percent,
    Slash,
    Star,
    Bang,
    Equal,
    EqualEqual,
    BangEqual,
    Greater,
    GreaterEqual,
    Lesser,
    LesserEqual,
    Ident(Seq<char>),
    Str(Seq<char>),
    Int(i32),
    And,
    Or,
    Else,
    If,
    False,
    True,
    Let,
    In,
    With,
    Error(Seq<char>),
    Eof,
}

/// The mathematical model of a token.
pub ghost struct TokenModel {
    pub kind: TokenKindModel,
    pub line: nat,
    pub col: nat,
    pub length: nat,
}

/// The classified kind of one lexical unit.
#[derive(Debug, Clone, PartialEq)]
pub enum TokenKind {
    //  single character misc tokens
    LParen,
    RParen,
    Comma,
    Dot,
    Minus,
    Plus,
    Percent,
    Slash,
    Star,
    //  logical operator tokens
    Bang,
    Equal,
    EqualEqual,
    BangEqual,
    Greater,
    GreaterEqual,
    Lesser,
    LesserEqual,
    //  literals
    Ident(String),
    Str(String),
    Int(i32),
    //  keywords
    And,
    Or,
    Else,
    If,
    False,
    True,
    Let,
    In,
    With,
    //  other
    Error(String),
    Eof,
}

impl View for TokenKind {
    type V = TokenKindModel;

    open spec fn view(&self) -> TokenKindModel {
        match self {
            TokenKind::LParen => TokenKindModel::LParen,
            TokenKind::RParen => TokenKindModel::RParen,
            TokenKind::Comma => TokenKindModel::Comma,
            TokenKind::Dot => TokenKindModel::Dot,
            TokenKind::Minus => TokenKindModel::Minus,
            TokenKind::Plus => TokenKindModel::Plus,
            TokenKind::Percent => TokenKindModel::Percent,
            TokenKind::Slash => TokenKindModel::Slash,
            TokenKind::Star => TokenKindModel::Star,
            TokenKind::Bang => TokenKindModel::Bang,
            TokenKind::Equal => TokenKindModel::Equal,
            TokenKind::EqualEqual => TokenKindModel::EqualEqual,
            TokenKind::BangEqual => TokenKindModel::BangEqual,
            TokenKind::Greater => TokenKindModel::Greater,
            TokenKind::GreaterEqual => TokenKindModel::GreaterEqual,
            TokenKind::Lesser => TokenKindModel::Lesser,
            TokenKind::LesserEqual => TokenKindModel::LesserEqual,
            TokenKind::Ident(s) => TokenKindModel::Ident(s@),
            TokenKind::Str(s) => TokenKindModel::Str(s@),
            TokenKind::Int(i) => TokenKindModel::Int(*i),
            TokenKind::And => TokenKindModel::And,
            TokenKind::Or => TokenKindModel::Or,
            TokenKind::Else => TokenKindModel::Else,
            TokenKind::If => TokenKindModel::If,
            TokenKind::False => TokenKindModel::False,
            TokenKind::True => TokenKindModel::True,
            TokenKind::Let => TokenKindModel::Let,
            TokenKind::In => TokenKindModel::In,
            TokenKind::With => TokenKindModel::With,
            TokenKind::Error(s) => TokenKindModel::Error(s@),
            TokenKind::Eof => TokenKindModel::Eof,
        }
    }
}

/// One classified lexical unit together with its source position: its start
/// line and column and its length in characters.
#[derive(Debug, Clone, PartialEq)]
pub struct Token {
    pub kind: TokenKind,
    pub line: u32,
    pub col: u32,
    pub length: u32,
}

impl View for Token {
    type V = TokenModel;

    open spec fn view(&self) -> TokenModel {
        TokenModel {
            kind: self.kind@,
            line: self.line as nat,
            col: self.col as nat,
            length: self.length as nat,
        }
    }
}

/// The keyword a word resolves to, if any; matching is exact and
/// case-sensitive.
pub open spec fn spec_keyword(w: Seq<char>) -> Option<TokenKindModel> {
    if w == "let"@ {
        Some(TokenKindModel::Let)
    } else if w == "in"@ {
        Some(TokenKindModel::In)
    } else if w == "and"@ {
        Some(TokenKindModel::And)
    } else if w == "or"@ {
        Some(TokenKindModel::Or)
    } else if w == "else"@ {
        Some(TokenKindModel::Else)
    } else if w == "if"@ {
        Some(TokenKindModel::If)
    } else if w == "false"@ {
        Some(TokenKindModel::False)
    } else if w == "true"@ {
        Some(TokenKindModel::True)
    } else if w == "with"@ {
        Some(TokenKindModel::With)
    } else {
        None
    }
}

/// The position of the lexer inside the source: the characters, the index of
/// the next character, and the line and column that index lies on.
pub ghost struct LexSt {
    pub src: Seq<char>,
    pub pos: nat,
    pub line: nat,
    pub col: nat,
}

/// Positions stay inside the source, which is small enough for 32-bit line
/// and column counters.
pub open spec fn wf_st(s: LexSt) -> bool {
    &&& s.pos <= s.src.len()
    &&& s.src.len() <= u32::MAX
    &&& s.line <= s.pos
    &&& s.col <= s.pos
}

/// Consuming one character: crossing a line break (or the very end of the
/// source) moves to column zero of the next line, anything else advances the
/// column.
pub open spec fn adv(s: LexSt) -> LexSt
    recommends
        s.pos < s.src.len(),
{
    if s.src[s.pos as int] == '\n' || s.pos + 1 == s.src.len() {
        LexSt { pos: s.pos + 1, line: s.line + 1, col: 0, ..s }
    } else {
        LexSt { pos: s.pos + 1, col: s.col + 1, ..s }
    }
}

/// Whether a comment begins at the current position.
pub open spec fn comment_at(s: LexSt) -> bool {
    s.pos + 1 < s.src.len() && s.src[s.pos as int] == '/' && s.src[s.pos as int + 1] == '/'
}

/// Skipping whitespace and `//` line comments before a token. With
/// `in_comment` set the lexer is inside a comment and consumes up to and
/// including the line break.
pub open spec fn skip_trivia(s: LexSt, in_comment: bool) -> LexSt
    decreases s.src.len() - s.pos, if in_comment { 0int } else { 1int },
{
    if s.pos >= s.src.len() {
        s
    } else if in_comment {
        if s.src[s.pos as int] == '\n' {
            skip_trivia(adv(s), false)
        } else {
            skip_trivia(adv(s), true)
        }
    } else if whitespace_char(s.src[s.pos as int]) {
        skip_trivia(adv(s), false)
    } else if comment_at(s) {
        skip_trivia(adv(adv(s)), true)
    } else {
        s
    }
}

/// Reading a string literal body after the opening quote: the content, the
/// state after the closing quote, and whether a closing quote was found
/// before end of input.
pub open spec fn scan_str(s: LexSt) -> (Seq<char>, LexSt, bool)
    decreases s.src.len() - s.pos,
{
    if s.pos >= s.src.len() {
        (Seq::empty(), s, false)
    } else if s.src[s.pos as int] == '"' {
        (Seq::empty(), adv(s), true)
    } else {
        let (rest, s2, term) = scan_str(adv(s));
        (seq![s.src[s.pos as int]] + rest, s2, term)
    }
}

/// Whether a character may continue an identifier.
pub open spec fn ident_char(c: char) -> bool {
    alphanumeric_char(c) || c == '_'
}

/// Whether a character may begin an identifier.
pub open spec fn ident_start_char(c: char) -> bool {
    (97 <= c as u32 && c as u32 <= 122) || (65 <= c as u32 && c as u32 <= 90) || c == '_'
}

/// Whether a character is a decimal digit.
pub open spec fn digit_char(c: char) -> bool {
    48 <= c as u32 && c as u32 <= 57
}

/// Reading the maximal run of identifier characters.
pub open spec fn scan_ident(s: LexSt) -> (Seq<char>, LexSt)
    decreases s.src.len() - s.pos,
{
    if s.pos < s.src.len() && ident_char(s.src[s.pos as int]) {
        let (rest, s2) = scan_ident(adv(s));
        (seq![s.src[s.pos as int]] + rest, s2)
    } else {
        (Seq::empty(), s)
    }
}

/// Reading the maximal run of decimal digits into a base-10 integer, with
/// fixed-width wrapping and no overflow check.
pub open spec fn scan_num(s: LexSt, acc: i32) -> (i32, LexSt)
    decreases s.src.len() - s.pos,
{
    if s.pos < s.src.len() && digit_char(s.src[s.pos as int]) {
        let d = (s.src[s.pos as int] as u32 - 48) as i32;
        scan_num(
            adv(s),
            vstd::wrapping::i32_specs::wrapping_add(
                vstd::wrapping::i32_specs::wrapping_mul(acc, 10),
                d,
            ),
        )
    } else {
        (acc, s)
    }
}

/// A token whose span starts where `from` stands and ends where `to` stands.
pub open spec fn spanned(kind: TokenKindModel, from: LexSt, to: LexSt) -> TokenModel {
    TokenModel { kind, line: from.line, col: from.col, length: (to.pos - from.pos) as nat }
}

/// The next token of the source and the state after it. Whitespace and
/// comments are skipped first; then the token is classified by its first
/// character: end of input, a string literal, an integer literal, an
/// identifier or keyword, or a one- or two-character operator, with the
/// two-character form taken greedily. Any other character yields an
/// error-kind token.
pub open spec fn next_token(s0: LexSt) -> (TokenModel, LexSt) {
    let s = skip_trivia(s0, false);
    if s.pos >= s.src.len() {
        (spanned(TokenKindModel::Eof, s, s), s)
    } else {
        let c = s.src[s.pos as int];
        if c == '"' {
            let (content, s2, term) = scan_str(adv(s));
            let kind = if term {
                TokenKindModel::Str(content)
            } else {
                TokenKindModel::Error("unterminated string"@)
            };
            (spanned(kind, s, s2), s2)
        } else if digit_char(c) {
            let (v, s2) = scan_num(s, 0);
            (spanned(TokenKindModel::Int(v), s, s2), s2)
        } else if ident_start_char(c) {
            let (rest, s2) = scan_ident(adv(s));
            let w = seq![c] + rest;
            let kind = match spec_keyword(w) {
                Some(k) => k,
                None => TokenKindModel::Ident(w),
            };
            (spanned(kind, s, s2), s2)
        } else {
            let s1 = adv(s);
            let eq_follows = s1.pos < s1.src.len() && s1.src[s1.pos as int] == '=';
            if c == '(' {
                (spanned(TokenKindModel::LParen, s, s1), s1)
            } else if c == ')' {
                (spanned(TokenKindModel::RParen, s, s1), s1)
            } else if c == ',' {
                (spanned(TokenKindModel::Comma, s, s1), s1)
            } else if c == '.' {
                (spanned(TokenKindModel::Dot, s, s1), s1)
            } else if c == '-' {
                (spanned(TokenKindModel::Minus, s, s1), s1)
            } else if c == '+' {
                (spanned(TokenKindModel::Plus, s, s1), s1)
            } else if c == '/' {
                (spanned(TokenKindModel::Slash, s, s1), s1)
            } else if c == '*' {
                (spanned(TokenKindModel::Star, s, s1), s1)
            } else if c == '%' {
                (spanned(TokenKindModel::Percent, s, s1), s1)
            } else if c == '!' {
                if eq_follows {
                    (spanned(TokenKindModel::BangEqual, s, adv(s1)), adv(s1))
                } else {
                    (spanned(TokenKindModel::Bang, s, s1), s1)
                }
            } else if c == '=' {
                if eq_follows {
                    (spanned(TokenKindModel::EqualEqual, s, adv(s1)), adv(s1))
                } else {
                    (spanned(TokenKindModel::Equal, s, s1), s1)
                }
            } else if c == '<' {
                if eq_follows {
                    (spanned(TokenKindModel::LesserEqual, s, adv(s1)), adv(s1))
                } else {
                    (spanned(TokenKindModel::Lesser, s, s1), s1)
                }
            } else if c == '>' {
                if eq_follows {
                    (spanned(TokenKindModel::GreaterEqual, s, adv(s1)), adv(s1))
                } else {
                    (spanned(TokenKindModel::Greater, s, s1), s1)
                }
            } else {
                (spanned(TokenKindModel::Error("unrecognized token"@), s, s1), s1)
            }
        }
    }
}

/// The tokens produced from `s` with at most `fuel` pull operations, ending
/// with the first end-of-input token.
pub open spec fn toks_n(s: LexSt, fuel: nat) -> Seq<TokenModel>
    decreases fuel,
{
    if fuel == 0 {
        Seq::empty()
    } else {
        let (t, s2) = next_token(s);
        if t.kind is Eof {
            seq![t]
        } else {
            seq![t] + toks_n(s2, (fuel - 1) as nat)
        }
    }
}

/// Every non-end token consumes at least one character, so this much fuel
/// always reaches the end-of-input token.
pub open spec fn stream_fuel(s: LexSt) -> nat {
    (s.src.len() - s.pos + 1) as nat
}

/// All remaining tokens of the source, ending with the end-of-input token.
pub open spec fn stream_from(s: LexSt) -> Seq<TokenModel> {
    toks_n(s, stream_fuel(s))
}

/// Skipping trivia stays inside the source, moves only forward and keeps the
/// state well formed.
pub proof fn lemma_skip_trivia_wf(s: LexSt, in_comment: bool)
    requires
        wf_st(s),
    ensures
        wf_st(skip_trivia(s, in_comment)),
        skip_trivia(s, in_comment).src == s.src,
        skip_trivia(s, in_comment).pos >= s.pos,
    decreases s.src.len() - s.pos, if in_comment { 0int } else { 1int },
{
    if s.pos >= s.src.len() {
    } else if in_comment {
        if s.src[s.pos as int] == '\n' {
            lemma_skip_trivia_wf(adv(s), false);
        } else {
            lemma_skip_trivia_wf(adv(s), true);
        }
    } else if whitespace_char(s.src[s.pos as int]) {
        lemma_skip_trivia_wf(adv(s), false);
    } else if comment_at(s) {
        lemma_skip_trivia_wf(adv(adv(s)), true);
    } else {
    }
}

/// Reading a string body stays inside the source, moves only forward and
/// keeps the state well formed.
pub proof fn lemma_scan_str_wf(s: LexSt)
    requires
        wf_st(s),
    ensures
        wf_st(scan_str(s).1),
        scan_str(s).1.src == s.src,
        scan_str(s).1.pos >= s.pos,
    decreases s.src.len() - s.pos,
{
    if s.pos >= s.src.len() {
    } else if s.src[s.pos as int] == '"' {
    } else {
        lemma_scan_str_wf(adv(s));
    }
}

/// Reading an identifier stays inside the source, moves only forward and
/// keeps the state well formed.
pub proof fn lemma_scan_ident_wf(s: LexSt)
    requires
        wf_st(s),
    ensures
        wf_st(scan_ident(s).1),
        scan_ident(s).1.src == s.src,
        scan_ident(s).1.pos >= s.pos,
    decreases s.src.len() - s.pos,
{
    if s.pos < s.src.len() && ident_char(s.src[s.pos as int]) {
        lemma_scan_ident_wf(adv(s));
    }
}

/// Reading a number stays inside the source, moves only forward and keeps
/// the state well formed.
pub proof fn lemma_scan_num_wf(s: LexSt, acc: i32)
    requires
        wf_st(s),
    ensures
        wf_st(scan_num(s, acc).1),
        scan_num(s, acc).1.src == s.src,
        scan_num(s, acc).1.pos >= s.pos,
    decreases s.src.len() - s.pos,
{
    if s.pos < s.src.len() && digit_char(s.src[s.pos as int]) {
        let d = (s.src[s.pos as int] as u32 - 48) as i32;
        lemma_scan_num_wf(
            adv(s),
            vstd::wrapping::i32_specs::wrapping_add(
                vstd::wrapping::i32_specs::wrapping_mul(acc, 10),
                d,
            ),
        );
    }
}

/// The next token leaves a well-formed state over the same source; a token
/// that is not the end-of-input token consumes at least one character, and
/// the end-of-input token leaves the state unchanged at the end.
pub proof fn lemma_next_token_wf(s: LexSt)
    requires
        wf_st(s),
    ensures
        wf_st(next_token(s).1),
        next_token(s).1.src == s.src,
        next_token(s).1.pos >= s.pos,
        !(next_token(s).0.kind is Eof) ==> next_token(s).1.pos > s.pos,
        next_token(s).0.kind is Eof ==> next_token(s).1 == skip_trivia(s, false)
            && next_token(s).1.pos == s.src.len(),
{
    lemma_skip_trivia_wf(s, false);
    let s1 = skip_trivia(s, false);
    if s1.pos < s1.src.len() {
        let c = s1.src[s1.pos as int];
        if c == '"' {
            lemma_scan_str_wf(adv(s1));
        } else if digit_char(c) {
            let d = (s1.src[s1.pos as int] as u32 - 48) as i32;
            let acc1 = vstd::wrapping::i32_specs::wrapping_add(
                vstd::wrapping::i32_specs::wrapping_mul(0, 10),
                d,
            );
            lemma_scan_num_wf(adv(s1), acc1);
            assert(scan_num(s1, 0).1 == scan_num(adv(s1), acc1).1);
        } else if ident_start_char(c) {
            lemma_scan_ident_wf(adv(s1));
        } else {
        }
    }
}

/// With enough fuel the token stream no longer depends on the fuel.
pub proof fn lemma_toks_n_fuel(s: LexSt, f1: nat, f2: nat)
    requires
        wf_st(s),
        f1 >= stream_fuel(s),
        f2 >= stream_fuel(s),
    ensures
        toks_n(s, f1) == toks_n(s, f2),
    decreases f1,
{
    let (t, s2) = next_token(s);
    lemma_next_token_wf(s);
    if !(t.kind is Eof) {
        lemma_toks_n_fuel(s2, (f1 - 1) as nat, (f2 - 1) as nat);
    }
}

/// The token stream always holds at least one token; exactly its last token
/// is the end-of-input token.
pub proof fn lemma_stream_shape(s: LexSt)
    requires
        wf_st(s),
    ensures
        stream_from(s).len() >= 1,
        stream_from(s).last().kind is Eof,
        forall|i: int|
            0 <= i < stream_from(s).len() - 1 ==> !(#[trigger] stream_from(s)[i].kind is Eof),
    decreases s.src.len() - s.pos,
{
    let (t, s2) = next_token(s);
    lemma_next_token_wf(s);
    if !(t.kind is Eof) {
        lemma_stream_shape(s2);
        lemma_toks_n_fuel(s2, (stream_fuel(s) - 1) as nat, stream_fuel(s2));
        assert(stream_from(s) == seq![t] + stream_from(s2));
    }
}

/// Popping the head: the stream after reading one non-end token is the rest
/// of the stream.
pub proof fn lemma_stream_step(s: LexSt)
    requires
        wf_st(s),
        !(next_token(s).0.kind is Eof),
    ensures
        stream_from(s) == seq![next_token(s).0] + stream_from(next_token(s).1),
{
    let (t, s2) = next_token(s);
    lemma_next_token_wf(s);
    lemma_toks_n_fuel(s2, (stream_fuel(s) - 1) as nat, stream_fuel(s2));
}

/// The pull-based tokenizer: the source characters, the current position
/// with its line and column, and the one-token lookahead buffer.
pub struct Tokenizer {
    src: Vec<char>,
    pos: usize,
    line: u32,
    col: u32,
    lookahead: Option<Token>,
}

impl Tokenizer {
    /// The lexer position of this tokenizer, past any buffered lookahead.
    pub closed spec fn lex_st(&self) -> LexSt {
        LexSt { src: self.src@, pos: self.pos as nat, line: self.line as nat, col: self.col as nat }
    }

    /// A tokenizer is well formed when its position is inside its source,
    /// its counters cannot overflow, and a buffered end-of-input token
    /// stands for the stream at the current position.
    pub closed spec fn wf(&self) -> bool {
        &&& wf_st(self.lex_st())
        &&& (match self.lookahead {
            Some(t) => t@.kind is Eof ==> stream_from(self.lex_st()) == seq![t@],
            None => true,
        })
    }

    /// The tokens this tokenizer will yield, ending with the end-of-input
    /// token.
    pub closed spec fn toks(&self) -> Seq<TokenModel> {
        match self.lookahead {
            Some(t) => if t@.kind is Eof {
                seq![t@]
            } else {
                seq![t@] + stream_from(self.lex_st())
            },
            None => stream_from(self.lex_st()),
        }
    }

    /// A tokenizer at the start of the given source characters.
    pub fn from_source(src: Vec<char>) -> (t: Tokenizer)
        requires
            src@.len() <= u32::MAX,
        ensures
            t.wf(),
            t.toks() == stream_from(LexSt { src: src@, pos: 0, line: 0, col: 0 }),
    {
        Tokenizer { src, pos: 0, line: 0, col: 0, lookahead: None }
    }

    /// Consume one character, updating the line and column counters.
    fn advance_char(&mut self)
        requires
            old(self).wf(),
            old(self).lookahead is None,
            old(self).lex_st().pos < old(self).lex_st().src.len(),
        ensures
            final(self).wf(),
            final(self).lookahead is None,
            final(self).lex_st() == adv(old(self).lex_st()),
    {
        let c = self.src[self.pos];
        self.pos = self.pos + 1;
        if c == '\n' || self.pos == self.src.len() {
            self.line = self.line + 1;
            self.col = 0;
        } else {
            self.col = self.col + 1;
        }
    }

    /// Skip whitespace and line comments before the next token.
    fn skip_trivia_exec(&mut self)
        requires
            old(self).wf(),
            old(self).lookahead is None,
        ensures
            final(self).wf(),
            final(self).lookahead is None,
            final(self).lex_st() == skip_trivia(old(self).lex_st(), false),
    {
        let mut in_comment = false;
        loop
            invariant
                self.wf(),
                self.lookahead is None,
                skip_trivia(self.lex_st(), in_comment) == skip_trivia(old(self).lex_st(), false),
            ensures
                self.wf(),
                self.lookahead is None,
                self.lex_st() == skip_trivia(old(self).lex_st(), false),
            decreases self.lex_st().src.len() - self.lex_st().pos,
        {
            if self.pos >= self.src.len() {
                break;
            }
            let c = self.src[self.pos];
            if in_comment {
                self.advance_char();
                if c == '\n' {
                    in_comment = false;
                }
            } else if c.is_whitespace() {
                self.advance_char();
            } else if c == '/' && self.pos + 1 < self.src.len() && self.src[self.pos + 1] == '/' {
                self.advance_char();
                self.advance_char();
                in_comment = true;
            } else {
                break;
            }
        }
    }

    /// Read a string literal, the opening quote standing at the current
    /// position. The token is an error-kind token when end of input comes
    /// before the closing quote.
    #[verifier::loop_isolation(false)]
    fn read_string(&mut self) -> (tk: Token)
        requires
            old(self).wf(),
            old(self).lookahead is None,
            old(self).lex_st().pos < old(self).lex_st().src.len(),
            old(self).lex_st().src[old(self).lex_st().pos as int] == '"',
        ensures
            final(self).wf(),
            final(self).lookahead is None,
            ({
                let s = old(self).lex_st();
                let (content, s2, term) = scan_str(adv(s));
                let kind = if term {
                    TokenKindModel::Str(content)
                } else {
                    TokenKindModel::Error("unterminated string"@)
                };
                tk@ == spanned(kind, s, s2) && final(self).lex_st() == s2
            }),
    {
        let start_line = self.line;
        let start_col = self.col;
        let start_pos = self.pos;
        self.advance_char();
        let mut acc = String::new();
        while self.pos < self.src.len() && self.src[self.pos] != '"'
            invariant
                self.wf(),
                self.lookahead is None,
                self.lex_st().src == old(self).lex_st().src,
                self.lex_st().pos >= start_pos + 1,
                scan_str(adv(old(self).lex_st())).0 == acc@ + scan_str(self.lex_st()).0,
                scan_str(adv(old(self).lex_st())).1 == scan_str(self.lex_st()).1,
                scan_str(adv(old(self).lex_st())).2 == scan_str(self.lex_st()).2,
            decreases self.lex_st().src.len() - self.lex_st().pos,
        {
            let c = self.src[self.pos];
            let ghost rest = scan_str(adv(self.lex_st())).0;
            let ghost acc0 = acc@;
            acc.push(c);
            self.advance_char();
            proof {
                assert(acc@ + rest =~= acc0 + (seq![c] + rest));
            }
        }
        proof {
            assert(acc@ + Seq::<char>::empty() =~= acc@);
        }
        if self.pos >= self.src.len() {
            Token {
                kind: TokenKind::Error("unterminated string".to_owned()),
                line: start_line,
                col: start_col,
                length: (self.pos - start_pos) as u32,
            }
        } else {
            self.advance_char();
            Token {
                kind: TokenKind::Str(acc),
                line: start_line,
                col: start_col,
                length: (self.pos - start_pos) as u32,
            }
        }
    }

    /// Read the maximal identifier starting at the current position and
    /// classify it against the keyword table.
    #[verifier::loop_isolation(false)]
    fn read_identifier(&mut self) -> (tk: Token)
        requires
            old(self).wf(),
            old(self).lookahead is None,
            old(self).lex_st().pos < old(self).lex_st().src.len(),
        ensures
            final(self).wf(),
            final(self).lookahead is None,
            ({
                let s = old(self).lex_st();
                let (rest, s2) = scan_ident(adv(s));
                let w = seq![s.src[s.pos as int]] + rest;
                let kind = match spec_keyword(w) {
                    Some(k) => k,
                    None => TokenKindModel::Ident(w),
                };
                tk@ == spanned(kind, s, s2) && final(self).lex_st() == s2
            }),
    {
        let start_line = self.line;
        let start_col = self.col;
        let start_pos = self.pos;
        let ghost w = seq![old(self).lex_st().src[old(self).lex_st().pos as int]] + scan_ident(
            adv(old(self).lex_st()),
        ).0;
        let mut acc = String::new();
        let c0 = self.src[self.pos];
        acc.push(c0);
        proof {
            assert(acc@ =~= seq![c0]);
        }
        self.advance_char();
        while self.pos < self.src.len() && (self.src[self.pos].is_alphanumeric() || self.src[self.pos]
            == '_')
            invariant
                self.wf(),
                self.lookahead is None,
                self.lex_st().src == old(self).lex_st().src,
                self.lex_st().pos >= start_pos,
                w == acc@ + scan_ident(self.lex_st()).0,
                scan_ident(adv(old(self).lex_st())).1 == scan_ident(self.lex_st()).1,
            decreases self.lex_st().src.len() - self.lex_st().pos,
        {
            let c = self.src[self.pos];
            let ghost rest = scan_ident(adv(self.lex_st())).0;
            let ghost acc0 = acc@;
            acc.push(c);
            self.advance_char();
            proof {
                assert(acc@ + rest =~= acc0 + (seq![c] + rest));
            }
        }
        proof {
            assert(acc@ + Seq::<char>::empty() =~= acc@);
        }
        let kind = match as_keyword(&acc) {
            Some(k) => k,
            None => TokenKind::Ident(acc),
        };
        Token { kind, line: start_line, col: start_col, length: (self.pos - start_pos) as u32 }
    }

    /// Read the maximal run of decimal digits as a base-10 integer literal,
    /// wrapping on overflow.
    #[verifier::loop_isolation(false)]
    fn read_number(&mut self) -> (tk: Token)
        requires
            old(self).wf(),
            old(self).lookahead is None,
            old(self).lex_st().pos < old(self).lex_st().src.len(),
        ensures
            final(self).wf(),
            final(self).lookahead is None,
            ({
                let s = old(self).lex_st();
                let (v, s2) = scan_num(s, 0);
                tk@ == spanned(TokenKindModel::Int(v), s, s2) && final(self).lex_st() == s2
            }),
    {
        let start_line = self.line;
        let start_col = self.col;
        let start_pos = self.pos;
        let mut acc: i32 = 0;
        while self.pos < self.src.len() && self.src[self.pos] as u32 >= 48 && self.src[self.pos]
            as u32 <= 57
            invariant
                self.wf(),
                self.lookahead is None,
                self.lex_st().src == old(self).lex_st().src,
                self.lex_st().pos >= start_pos,
                scan_num(old(self).lex_st(), 0) == scan_num(self.lex_st(), acc),
            decreases self.lex_st().src.len() - self.lex_st().pos,
        {
            let cu = self.src[self.pos] as u32;
            let d = (cu - 48) as i32;
            acc = acc.wrapping_mul(10).wrapping_add(d);
            self.advance_char();
        }
        Token {
            kind: TokenKind::Int(acc),
            line: start_line,
            col: start_col,
            length: (self.pos - start_pos) as u32,
        }
    }

    /// Compute the next token from the source, advancing past it.
    fn read_token(&mut self) -> (tk: Token)
        requires
            old(self).wf(),
            old(self).lookahead is None,
        ensures
            final(self).wf(),
            final(self).lookahead is None,
            tk@ == next_token(old(self).lex_st()).0,
            final(self).lex_st() == next_token(old(self).lex_st()).1,
    {
        self.skip_trivia_exec();
        proof {
            lemma_skip_trivia_wf(old(self).lex_st(), false);
        }
        if self.pos >= self.src.len() {
            return Token { kind: TokenKind::Eof, line: self.line, col: self.col, length: 0 };
        }
        let c = self.src[self.pos];
        if c == '"' {
            return self.read_string();
        }
        let cu = c as u32;
        if 48 <= cu && cu <= 57 {
            return self.read_number();
        }
        if (97 <= cu && cu <= 122) || (65 <= cu && cu <= 90) || c == '_' {
            return self.read_identifier();
        }
        let start_line = self.line;
        let start_col = self.col;
        self.advance_char();
        let eq_follows = self.pos < self.src.len() && self.src[self.pos] == '=';
        let (kind, length): (TokenKind, u32) = match c {
            '(' => (TokenKind::LParen, 1),
            ')' => (TokenKind::RParen, 1),
            ',' => (TokenKind::Comma, 1),
            '.' => (TokenKind::Dot, 1),
            '-' => (TokenKind::Minus, 1),
            '+' => (TokenKind::Plus, 1),
            '/' => (TokenKind::Slash, 1),
            '*' => (TokenKind::Star, 1),
            '%' => (TokenKind::Percent, 1),
            '!' => if eq_follows {
                self.advance_char();
                (TokenKind::BangEqual, 2)
            } else {
                (TokenKind::Bang, 1)
            },
            '=' => if eq_follows {
                self.advance_char();
                (TokenKind::EqualEqual, 2)
            } else {
                (TokenKind::Equal, 1)
            },
            '<' => if eq_follows {
                self.advance_char();
                (TokenKind::LesserEqual, 2)
            } else {
                (TokenKind::Lesser, 1)
            },
            '>' => if eq_follows {
                self.advance_char();
                (TokenKind::GreaterEqual, 2)
            } else {
                (TokenKind::Greater, 1)
            },
            _ => (TokenKind::Error("unrecognized token".to_owned()), 1),
        };
        Token { kind, line: start_line, col: start_col, length }
    }

    /// Compute and buffer the next token if no lookahead is buffered yet.
    fn initialize_peek(&mut self)
        requires
            old(self).wf(),
        ensures
            final(self).wf(),
            final(self).lookahead is Some,
            final(self).toks() == old(self).toks(),
    {
        if self.lookahead.is_none() {
            let ghost s = self.lex_st();
            let t = self.read_token();
            proof {
                lemma_next_token_wf(s);
                if !(t@.kind is Eof) {
                    lemma_stream_step(s);
                } else {
                    assert(next_token(self.lex_st()) == next_token(s));
                    assert(stream_from(self.lex_st()) == seq![t@]);
                }
            }
            self.lookahead = Some(t);
        }
    }

    /// Return the next token without consuming it.
    pub fn peek(&mut self) -> (tk: &Token)
        requires
            old(self).wf(),
        ensures
            final(self).wf(),
            final(self).toks() == old(self).toks(),
            tk@ == final(self).toks()[0],
    {
        self.initialize_peek();
        match &self.lookahead {
            Some(t) => t,
            None => unreached(),
        }
    }

    /// Return and consume the next token; the end-of-input token is returned
    /// again on every further call.
    pub fn pop(&mut self) -> (tk: Token)
        requires
            old(self).wf(),
        ensures
            final(self).wf(),
            tk@ == old(self).toks()[0],
            final(self).toks() == (if old(self).toks()[0].kind is Eof {
                old(self).toks()
            } else {
                old(self).toks().drop_first()
            }),
    {
        self.initialize_peek();
        let t = match self.lookahead.take() {
            Some(t) => t,
            None => unreached(),
        };
        if let TokenKind::Eof = &t.kind {
            let t2 = Token { kind: TokenKind::Eof, line: t.line, col: t.col, length: t.length };
            proof {
                assert(t2@ == t@);
            }
            self.lookahead = Some(t2);
            t
        } else {
            proof {
                assert(self.toks() =~= old(self).toks().drop_first());
            }
            t
        }
    }
}

/// The keyword a word resolves to, if any.
fn as_keyword(word: &String) -> (r: Option<TokenKind>)
    ensures
        (match r {
            Some(k) => spec_keyword(word@) == Some(k@),
            None => spec_keyword(word@) is None,
        }),
{
    if *word == "let".to_owned() {
        Some(TokenKind::Let)
    } else if *word == "in".to_owned() {
        Some(TokenKind::In)
    } else if *word == "and".to_owned() {
        Some(TokenKind::And)
    } else if *word == "or".to_owned() {
        Some(TokenKind::Or)
    } else if *word == "else".to_owned() {
        Some(TokenKind::Else)
    } else if *word == "if".to_owned() {
        Some(TokenKind::If)
    } else if *word == "false".to_owned() {
        Some(TokenKind::False)
    } else if *word == "true".to_owned() {
        Some(TokenKind::True)
    } else if *word == "with".to_owned() {
        Some(TokenKind::With)
    } else {
        None
    }
}

/// The token stream of a well-formed tokenizer is never empty and holds the
/// end-of-input token exactly once, at its end.
pub proof fn lemma_toks_shape(t: &Tokenizer)
    requires
        t.wf(),
    ensures
        t.toks().len() >= 1,
        t.toks().last().kind is Eof,
        forall|i: int| 0 <= i < t.toks().len() - 1 ==> !(#[trigger] t.toks()[i].kind is Eof),
{
    lemma_stream_shape(t.lex_st());
}

} // verus!
