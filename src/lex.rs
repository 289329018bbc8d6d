use vstd::prelude::*;

verus! {

/// The kinds of tokens, in three bands: generic tokens, keywords and operators.
#[derive(PartialEq, Eq, Structural, Debug, Clone, Copy)]
pub enum TokenType {
    EOF,
    NEWLINE,
    NUMBER,
    IDENT,
    STRING,
    // Keywords.
    LABEL,
    GOTO,
    PRINT,
    INPUT,
    LET,
    IF,
    THEN,
    ENDIF,
    WHILE,
    REPEAT,
    ENDWHILE,
    // Operators.
    EQ,
    PLUS,
    MINUS,
    ASTERISK,
    SLASH,
    EQEQ,
    NOTEQ,
    LT,
    LTEQ,
    GT,
    GTEQ,
}

/// The keyword whose canonical spelling is `s`, if any (exact, case-sensitive).
pub open spec fn keyword_of(s: Seq<char>) -> Option<TokenType> {
    if s == "LABEL"@ {
        Some(TokenType::LABEL)
    } else if s == "GOTO"@ {
        Some(TokenType::GOTO)
    } else if s == "PRINT"@ {
        Some(TokenType::PRINT)
    } else if s == "INPUT"@ {
        Some(TokenType::INPUT)
    } else if s == "LET"@ {
        Some(TokenType::LET)
    } else if s == "IF"@ {
        Some(TokenType::IF)
    } else if s == "THEN"@ {
        Some(TokenType::THEN)
    } else if s == "ENDIF"@ {
        Some(TokenType::ENDIF)
    } else if s == "WHILE"@ {
        Some(TokenType::WHILE)
    } else if s == "REPEAT"@ {
        Some(TokenType::REPEAT)
    } else if s == "ENDWHILE"@ {
        Some(TokenType::ENDWHILE)
    } else {
        None
    }
}

impl TokenType {
    pub open spec fn is_keyword(self) -> bool {
        match self {
            TokenType::LABEL | TokenType::GOTO | TokenType::PRINT | TokenType::INPUT
            | TokenType::LET | TokenType::IF | TokenType::THEN | TokenType::ENDIF
            | TokenType::WHILE | TokenType::REPEAT | TokenType::ENDWHILE => true,
            _ => false,
        }
    }

    /// The canonical name of the kind, as it is spelled in messages.
    pub fn name(&self) -> &'static str {
        match self {
            TokenType::EOF => "EOF",
            TokenType::NEWLINE => "NEWLINE",
            TokenType::NUMBER => "NUMBER",
            TokenType::IDENT => "IDENT",
            TokenType::STRING => "STRING",
            TokenType::LABEL => "LABEL",
            TokenType::GOTO => "GOTO",
            TokenType::PRINT => "PRINT",
            TokenType::INPUT => "INPUT",
            TokenType::LET => "LET",
            TokenType::IF => "IF",
            TokenType::THEN => "THEN",
            TokenType::ENDIF => "ENDIF",
            TokenType::WHILE => "WHILE",
            TokenType::REPEAT => "REPEAT",
            TokenType::ENDWHILE => "ENDWHILE",
            TokenType::EQ => "EQ",
            TokenType::PLUS => "PLUS",
            TokenType::MINUS => "MINUS",
            TokenType::ASTERISK => "ASTERISK",
            TokenType::SLASH => "SLASH",
            TokenType::EQEQ => "EQEQ",
            TokenType::NOTEQ => "NOTEQ",
            TokenType::LT => "LT",
            TokenType::LTEQ => "LTEQ",
            TokenType::GT => "GT",
            TokenType::GTEQ => "GTEQ",
        }
    }
}

/// A classified lexical unit: its source text and its kind.
#[derive(Clone, Debug)]
pub struct Token {
    pub text: String,
    pub kind: TokenType,
}

impl View for Token {
    type V = (Seq<char>, TokenType);

    open spec fn view(&self) -> (Seq<char>, TokenType) {
        (self.text@, self.kind)
    }
}

impl Token {
    pub fn new(text: String, kind: TokenType) -> (r: Self)
        ensures
            r.text == text,
            r.kind == kind,
    {
        Token { text, kind }
    }

    /// Resolves identifier text against the keyword band.
    pub fn check_if_keyword(token_text: &String) -> (r: Option<TokenType>)
        ensures
            r == keyword_of(token_text@),
            r matches Some(k) ==> k.is_keyword(),
    {
        if *token_text == String::from_str("LABEL") {
            Some(TokenType::LABEL)
        } else if *token_text == String::from_str("GOTO") {
            Some(TokenType::GOTO)
        } else if *token_text == String::from_str("PRINT") {
            Some(TokenType::PRINT)
        } else if *token_text == String::from_str("INPUT") {
            Some(TokenType::INPUT)
        } else if *token_text == String::from_str("LET") {
            Some(TokenType::LET)
        } else if *token_text == String::from_str("IF") {
            Some(TokenType::IF)
        } else if *token_text == String::from_str("THEN") {
            Some(TokenType::THEN)
        } else if *token_text == String::from_str("ENDIF") {
            Some(TokenType::ENDIF)
        } else if *token_text == String::from_str("WHILE") {
            Some(TokenType::WHILE)
        } else if *token_text == String::from_str("REPEAT") {
            Some(TokenType::REPEAT)
        } else if *token_text == String::from_str("ENDWHILE") {
            Some(TokenType::ENDWHILE)
        } else {
            None
        }
    }
}

/// What a scan step yields: a token's text and kind.
pub type TokenView = (Seq<char>, TokenType);

/// A fault in the character stream; each one ends the translation.
#[derive(PartialEq, Eq, Structural, Debug, Clone, Copy)]
pub enum LexError {
    /// A carriage return, newline, tab, backslash or percent sign inside a string literal.
    IllegalStringChar,
    /// A dot that no digit follows inside a number.
    IllegalNumber,
    /// A `!` that no `=` follows.
    ExpectedNotEq,
    /// A character that starts no token.
    UnknownToken(char),
}

/// Unicode's Alphabetic property of `c`.
pub uninterp spec fn alphabetic(c: char) -> bool;

/// Unicode's Numeric property of `c`.
pub uninterp spec fn numeric(c: char) -> bool;

/// Relies on char::is_alphabetic: true exactly for characters with the Alphabetic property.
#[verifier::external_body]
fn is_alphabetic_char(c: char) -> (r: bool)
    ensures
        r == alphabetic(c),
{
    c.is_alphabetic()
}

/// Relies on char::is_alphanumeric: documented as `is_alphabetic() || is_numeric()`.
#[verifier::external_body]
fn is_alphanumeric_char(c: char) -> (r: bool)
    ensures
        r == (alphabetic(c) || numeric(c)),
{
    c.is_alphanumeric()
}

/// Relies on String::push: appends one character at the end.
#[verifier::external_body]
fn push_char(s: &mut String, c: char)
    ensures
        final(s)@ == old(s)@.push(c),
{
    s.push(c)
}

pub open spec fn is_digit(c: char) -> bool {
    '0' <= c && c <= '9'
}

fn is_ascii_digit(c: char) -> (r: bool)
    ensures
        r == is_digit(c),
{
    '0' <= c && c <= '9'
}

pub open spec fn is_blank(c: char) -> bool {
    c == ' ' || c == '\t' || c == '\r'
}

/// The characters that end the body of a string literal: its closing quote, or
/// one of the characters that a literal may not hold.
pub open spec fn is_string_stop(c: char) -> bool {
    c == '"' || c == '\r' || c == '\n' || c == '\t' || c == '\\' || c == '%'
}

/// The character at `i`, or the sentinel `'\0'` past the end.
pub open spec fn char_at(src: Seq<char>, i: int) -> char {
    if 0 <= i < src.len() {
        src[i]
    } else {
        '\0'
    }
}

/// The first index at or after `i` that is not a blank.
pub open spec fn skip_blanks(src: Seq<char>, i: int) -> int
    decreases src.len() - i,
{
    if 0 <= i < src.len() && is_blank(src[i]) {
        skip_blanks(src, i + 1)
    } else {
        i
    }
}

/// The first index at or after `i` that holds a newline (or the end).
pub open spec fn line_end(src: Seq<char>, i: int) -> int
    decreases src.len() - i,
{
    if 0 <= i < src.len() && src[i] != '\n' {
        line_end(src, i + 1)
    } else {
        i
    }
}

/// Past a comment that starts at `i`, if one does.
pub open spec fn skip_comment(src: Seq<char>, i: int) -> int {
    if char_at(src, i) == '#' {
        line_end(src, i)
    } else {
        i
    }
}

/// The end of the maximal run of ASCII digits from `i`.
pub open spec fn digits_end(src: Seq<char>, i: int) -> int
    decreases src.len() - i,
{
    if 0 <= i < src.len() && is_digit(src[i]) {
        digits_end(src, i + 1)
    } else {
        i
    }
}

/// The end of the maximal run of alphanumeric characters from `i`; a newline
/// always ends it.
pub open spec fn alnum_end(src: Seq<char>, i: int) -> int
    decreases src.len() - i,
{
    if 0 <= i < src.len() && src[i] != '\n' && (alphabetic(src[i]) || numeric(src[i])) {
        alnum_end(src, i + 1)
    } else {
        i
    }
}

/// The first index at or after `i` where the body of a string literal stops.
pub open spec fn string_end(src: Seq<char>, i: int) -> int
    decreases src.len() - i,
{
    if 0 <= i < src.len() && !is_string_stop(src[i]) {
        string_end(src, i + 1)
    } else {
        i
    }
}

/// A token made of `src[q..e]`, with the position after it.
pub open spec fn tok(src: Seq<char>, q: int, e: int, k: TokenType) -> Result<(TokenView, int), LexError> {
    Ok(((src.subrange(q, e), k), e))
}

/// One scan step from position `p`: the next token and the position after it.
/// Blanks and a comment are skipped first; the end of the source yields `EOF`
/// without moving.
pub open spec fn scan(src: Seq<char>, p: int) -> Result<(TokenView, int), LexError> {
    let q = skip_comment(src, skip_blanks(src, p));
    let c = char_at(src, q);
    let c2 = char_at(src, q + 1);
    if q >= src.len() {
        Ok(((Seq::empty(), TokenType::EOF), q))
    } else if c == '+' {
        tok(src, q, q + 1, TokenType::PLUS)
    } else if c == '-' {
        tok(src, q, q + 1, TokenType::MINUS)
    } else if c == '*' {
        tok(src, q, q + 1, TokenType::ASTERISK)
    } else if c == '/' {
        tok(src, q, q + 1, TokenType::SLASH)
    } else if c == '=' {
        if c2 == '=' {
            tok(src, q, q + 2, TokenType::EQEQ)
        } else {
            tok(src, q, q + 1, TokenType::EQ)
        }
    } else if c == '>' {
        if c2 == '=' {
            tok(src, q, q + 2, TokenType::GTEQ)
        } else {
            tok(src, q, q + 1, TokenType::GT)
        }
    } else if c == '<' {
        if c2 == '=' {
            tok(src, q, q + 2, TokenType::LTEQ)
        } else {
            tok(src, q, q + 1, TokenType::LT)
        }
    } else if c == '!' {
        if c2 == '=' {
            tok(src, q, q + 2, TokenType::NOTEQ)
        } else {
            Err(LexError::ExpectedNotEq)
        }
    } else if c == '"' {
        let e = string_end(src, q + 1);
        if char_at(src, e) == '"' {
            tok(src, q, e + 1, TokenType::STRING)
        } else {
            Err(LexError::IllegalStringChar)
        }
    } else if is_digit(c) {
        let e1 = digits_end(src, q + 1);
        if char_at(src, e1) == '.' {
            if is_digit(char_at(src, e1 + 1)) {
                tok(src, q, digits_end(src, e1 + 1), TokenType::NUMBER)
            } else {
                Err(LexError::IllegalNumber)
            }
        } else {
            tok(src, q, e1, TokenType::NUMBER)
        }
    } else if c == '\n' {
        tok(src, q, q + 1, TokenType::NEWLINE)
    } else if alphabetic(c) {
        let e = alnum_end(src, q + 1);
        let t = src.subrange(q, e);
        match keyword_of(t) {
            Some(k) => tok(src, q, e, k),
            None => tok(src, q, e, TokenType::IDENT),
        }
    } else {
        Err(LexError::UnknownToken(c))
    }
}

/// A source as the tokenizer sees it: the text with a newline appended.
pub open spec fn source_of(input: Seq<char>) -> Seq<char> {
    input.push('\n')
}

/// The tokenizer over a source: the characters, and the position of the
/// current character.
pub struct Lexer {
    source: Vec<char>,
    cur_pos: usize,
}

impl Lexer {
    pub closed spec fn src(&self) -> Seq<char> {
        self.source@
    }

    pub closed spec fn pos(&self) -> int {
        self.cur_pos as int
    }

    pub closed spec fn wf(&self) -> bool {
        &&& self.source@.len() >= 1
        &&& self.source@.len() + 2 < usize::MAX
        &&& self.source@.last() == '\n'
        &&& self.cur_pos <= self.source@.len()
    }

    pub open spec fn at_eof(&self) -> bool {
        self.pos() >= self.src().len()
    }

    pub fn new(input: String) -> (r: Self)
        requires
            input@.len() + 3 < usize::MAX,
        ensures
            r.wf(),
            r.src() == source_of(input@),
            r.pos() == 0,
    {
        let s = input.as_str();
        let n = s.unicode_len();
        let mut source: Vec<char> = Vec::new();
        let mut i: usize = 0;
        while i < n
            invariant
                n == s@.len(),
                s@ == input@,
                i <= n,
                source@ == s@.subrange(0, i as int),
            decreases n - i,
        {
            source.push(s.get_char(i));
            i = i + 1;
        }
        source.push('\n');
        assert(s@.subrange(0, n as int) == s@);
        Lexer { source, cur_pos: 0 }
    }

    fn next_char(&mut self)
        requires
            old(self).wf(),
            old(self).pos() < old(self).src().len(),
        ensures
            final(self).wf(),
            final(self).src() == old(self).src(),
            final(self).pos() == old(self).pos() + 1,
    {
        self.cur_pos = self.cur_pos + 1;
    }

    fn cur_char(&self) -> (r: char)
        requires
            self.wf(),
        ensures
            r == char_at(self.src(), self.pos()),
    {
        if self.cur_pos < self.source.len() {
            self.source[self.cur_pos]
        } else {
            '\0'
        }
    }

    fn peek(&self) -> (r: char)
        requires
            self.wf(),
        ensures
            r == char_at(self.src(), self.pos() + 1),
    {
        if self.cur_pos + 1 < self.source.len() {
            self.source[self.cur_pos + 1]
        } else {
            '\0'
        }
    }

    fn skip_whitespace(&mut self)
        requires
            old(self).wf(),
        ensures
            final(self).wf(),
            final(self).src() == old(self).src(),
            final(self).pos() == skip_blanks(old(self).src(), old(self).pos()),
    {
        while self.cur_pos < self.source.len() && is_blank_char(self.source[self.cur_pos])
            invariant
                self.wf(),
                self.src() == old(self).src(),
                skip_blanks(self.src(), self.pos()) == skip_blanks(old(self).src(), old(self).pos()),
            decreases self.src().len() - self.pos(),
        {
            self.next_char();
        }
    }

    fn skip_comment(&mut self)
        requires
            old(self).wf(),
        ensures
            final(self).wf(),
            final(self).src() == old(self).src(),
            final(self).pos() == skip_comment(old(self).src(), old(self).pos()),
    {
        if self.cur_char() == '#' {
            while self.cur_pos < self.source.len() && self.source[self.cur_pos] != '\n'
                invariant
                    self.wf(),
                    self.src() == old(self).src(),
                    line_end(self.src(), self.pos()) == line_end(old(self).src(), old(self).pos()),
                decreases self.src().len() - self.pos(),
            {
                self.next_char();
            }
        }
    }

    /// The characters `source[start..end]` as a string.
    fn text(&self, start: usize, end: usize) -> (r: String)
        requires
            self.wf(),
            start <= end <= self.src().len(),
        ensures
            r@ == self.src().subrange(start as int, end as int),
    {
        let mut r = String::new();
        let mut i: usize = start;
        while i < end
            invariant
                self.wf(),
                start <= i <= end <= self.src().len(),
                r@ == self.src().subrange(start as int, i as int),
            decreases end - i,
        {
            push_char(&mut r, self.source[i]);
            assert(self.src().subrange(start as int, i + 1) == self.src().subrange(start as int, i as int).push(self.src()[i as int]));
            i = i + 1;
        }
        r
    }

    /// A token of `kind` made of `source[start..end]`; the cursor moves to `end`.
    fn make_token(&mut self, start: usize, end: usize, kind: TokenType) -> (r: Token)
        requires
            old(self).wf(),
            start <= end <= old(self).src().len(),
        ensures
            final(self).wf(),
            final(self).src() == old(self).src(),
            final(self).pos() == end,
            r@ == (old(self).src().subrange(start as int, end as int), kind),
    {
        let text = self.text(start, end);
        self.cur_pos = end;
        Token::new(text, kind)
    }

    /// Scans the next token, as `scan` describes. At the end of the source it
    /// yields `EOF` and stays there.
    pub fn get_token(&mut self) -> (r: Result<Token, LexError>)
        requires
            old(self).wf(),
        ensures
            final(self).wf(),
            final(self).src() == old(self).src(),
            match scan(old(self).src(), old(self).pos()) {
                Ok((t, e)) => r matches Ok(tk) && tk@ == t && final(self).pos() == e,
                Err(err) => r == Err::<Token, LexError>(err),
            },
    {
        let ghost src = self.src();
        self.skip_whitespace();
        self.skip_comment();
        let start = self.cur_pos;
        if start >= self.source.len() {
            return Ok(Token::new(String::new(), TokenType::EOF));
        }
        let c = self.source[start];
        let c2 = self.peek();
        if c == '+' {
            Ok(self.make_token(start, start + 1, TokenType::PLUS))
        } else if c == '-' {
            Ok(self.make_token(start, start + 1, TokenType::MINUS))
        } else if c == '*' {
            Ok(self.make_token(start, start + 1, TokenType::ASTERISK))
        } else if c == '/' {
            Ok(self.make_token(start, start + 1, TokenType::SLASH))
        } else if c == '=' {
            if c2 == '=' {
                Ok(self.make_token(start, start + 2, TokenType::EQEQ))
            } else {
                Ok(self.make_token(start, start + 1, TokenType::EQ))
            }
        } else if c == '>' {
            if c2 == '=' {
                Ok(self.make_token(start, start + 2, TokenType::GTEQ))
            } else {
                Ok(self.make_token(start, start + 1, TokenType::GT))
            }
        } else if c == '<' {
            if c2 == '=' {
                Ok(self.make_token(start, start + 2, TokenType::LTEQ))
            } else {
                Ok(self.make_token(start, start + 1, TokenType::LT))
            }
        } else if c == '!' {
            if c2 == '=' {
                Ok(self.make_token(start, start + 2, TokenType::NOTEQ))
            } else {
                Err(LexError::ExpectedNotEq)
            }
        } else if c == '"' {
            self.next_char();
            proof {
                lemma_string_end_bounded(src, start + 1);
            }
            while self.cur_char() != '"'
                invariant
                    self.wf(),
                    self.src() == src,
                    src == old(self).src(),
                    start == skip_comment(src, skip_blanks(src, old(self).pos())),
                    src[start as int] == '"',
                    start < self.pos() <= string_end(src, start + 1) < src.len(),
                    string_end(src, self.pos()) == string_end(src, start + 1),
                decreases src.len() - self.pos(),
            {
                let ch = self.cur_char();
                if ch == '\r' || ch == '\n' || ch == '\t' || ch == '\\' || ch == '%' {
                    assert(string_end(src, self.pos()) == self.pos());
                    return Err(LexError::IllegalStringChar);
                }
                assert(string_end(src, self.pos()) == string_end(src, self.pos() + 1));
                proof {
                    lemma_string_end_bounded(src, self.pos() + 1);
                }
                self.next_char();
            }
            let end = self.cur_pos + 1;
            Ok(self.make_token(start, end, TokenType::STRING))
        } else if is_ascii_digit(c) {
            while is_ascii_digit(self.peek())
                invariant
                    self.wf(),
                    self.src() == src,
                    start <= self.pos() < src.len(),
                    digits_end(src, self.pos() + 1) == digits_end(src, start + 1),
                decreases src.len() - self.pos(),
            {
                self.next_char();
            }
            if self.peek() == '.' {
                self.next_char();
                let ghost e1 = self.pos();
                if !is_ascii_digit(self.peek()) {
                    return Err(LexError::IllegalNumber);
                }
                while is_ascii_digit(self.peek())
                    invariant
                        self.wf(),
                        self.src() == src,
                        e1 <= self.pos() < src.len(),
                        digits_end(src, self.pos() + 1) == digits_end(src, e1 + 1),
                    decreases src.len() - self.pos(),
                {
                    self.next_char();
                }
            }
            let end = self.cur_pos + 1;
            Ok(self.make_token(start, end, TokenType::NUMBER))
        } else if c == '\n' {
            Ok(self.make_token(start, start + 1, TokenType::NEWLINE))
        } else if is_alphabetic_char(c) {
            while self.cur_pos + 1 < self.source.len() && self.peek() != '\n'
                && is_alphanumeric_char(self.peek())
                invariant
                    self.wf(),
                    self.src() == src,
                    start <= self.pos() < src.len(),
                    alnum_end(src, self.pos() + 1) == alnum_end(src, start + 1),
                decreases src.len() - self.pos(),
            {
                self.next_char();
            }
            let end = self.cur_pos + 1;
            let text = self.text(start, end);
            self.cur_pos = end;
            match Token::check_if_keyword(&text) {
                Some(kind) => Ok(Token::new(text, kind)),
                None => Ok(Token::new(text, TokenType::IDENT)),
            }
        } else {
            Err(LexError::UnknownToken(c))
        }
    }
}

proof fn lemma_skip_blanks_ge(src: Seq<char>, i: int)
    ensures
        skip_blanks(src, i) >= i,
    decreases src.len() - i,
{
    if 0 <= i < src.len() && is_blank(src[i]) {
        lemma_skip_blanks_ge(src, i + 1);
    }
}

proof fn lemma_line_end_ge(src: Seq<char>, i: int)
    ensures
        line_end(src, i) >= i,
    decreases src.len() - i,
{
    if 0 <= i < src.len() && src[i] != '\n' {
        lemma_line_end_ge(src, i + 1);
    }
}

proof fn lemma_digits_end_ge(src: Seq<char>, i: int)
    ensures
        digits_end(src, i) >= i,
    decreases src.len() - i,
{
    if 0 <= i < src.len() && is_digit(src[i]) {
        lemma_digits_end_ge(src, i + 1);
    }
}

proof fn lemma_alnum_end_ge(src: Seq<char>, i: int)
    ensures
        alnum_end(src, i) >= i,
    decreases src.len() - i,
{
    if 0 <= i < src.len() && src[i] != '\n' && (alphabetic(src[i]) || numeric(src[i])) {
        lemma_alnum_end_ge(src, i + 1);
    }
}

proof fn lemma_string_end_ge(src: Seq<char>, i: int)
    ensures
        string_end(src, i) >= i,
    decreases src.len() - i,
{
    if 0 <= i < src.len() && !is_string_stop(src[i]) {
        lemma_string_end_ge(src, i + 1);
    }
}

/// A scan step never moves back, and every token but `EOF` consumes at least
/// one character.
pub proof fn lemma_scan_progress(src: Seq<char>, p: int)
    ensures
        scan(src, p) matches Ok((t, e)) ==> p <= e && (t.1 != TokenType::EOF ==> p < e),
{
    let b = skip_blanks(src, p);
    lemma_skip_blanks_ge(src, p);
    lemma_line_end_ge(src, b);
    let q = skip_comment(src, b);
    lemma_string_end_ge(src, q + 1);
    let e1 = digits_end(src, q + 1);
    lemma_digits_end_ge(src, q + 1);
    lemma_digits_end_ge(src, e1 + 1);
    lemma_alnum_end_ge(src, q + 1);
}

/// The tokens of a source from position `p`, up to and including `EOF`, or the
/// first lexical fault.
pub open spec fn tokens_from(src: Seq<char>, p: int) -> Result<Seq<TokenView>, LexError>
    decreases src.len() - p,
{
    match scan(src, p) {
        Err(x) => Err(x),
        Ok((t, e)) => if t.1 == TokenType::EOF || !(p < e <= src.len()) {
            Ok(seq![t])
        } else {
            match tokens_from(src, e) {
                Ok(ts) => Ok(seq![t] + ts),
                Err(x) => Err(x),
            }
        },
    }
}

/// The tokens of a whole text.
pub open spec fn tokens_of(input: Seq<char>) -> Result<Seq<TokenView>, LexError> {
    tokens_from(source_of(input), 0)
}

/// Tokenizes a whole text: every token up to and including `EOF`.
pub fn tokenize(input: String) -> (r: Result<Vec<Token>, LexError>)
    requires
        input@.len() + 3 < usize::MAX,
    ensures
        match tokens_of(input@) {
            Ok(ts) => r matches Ok(v) && v@.map_values(|t: Token| t@) == ts,
            Err(e) => r == Err::<Vec<Token>, LexError>(e),
        },
{
    let ghost text = input@;
    let mut lexer = Lexer::new(input);
    let mut out: Vec<Token> = Vec::new();
    loop
        invariant
            lexer.wf(),
            lexer.src() == source_of(text),
            text == input@,
            tokens_of(text) == match tokens_from(lexer.src(), lexer.pos()) {
                Ok(ts) => Ok(out@.map_values(|t: Token| t@) + ts),
                Err(e) => Err(e),
            },
        decreases lexer.src().len() - lexer.pos(),
    {
        let ghost p = lexer.pos();
        let ghost before = out@.map_values(|t: Token| t@);
        proof {
            lemma_scan_progress(lexer.src(), p);
        }
        match lexer.get_token() {
            Err(e) => {
                return Err(e);
            },
            Ok(t) => {
                let eof = t.kind == TokenType::EOF;
                let ghost tv = t@;
                out.push(t);
                assert(out@.map_values(|t: Token| t@) =~= before.push(tv));
                if eof {
                    assert(before + seq![tv] =~= before.push(tv));
                    return Ok(out);
                }
                assert forall|ts: Seq<TokenView>| #![auto] before + (seq![tv] + ts) =~= before.push(tv) + ts by {}
            },
        }
    }
}

/// Tokenizing is a function of the text alone: tokenizing the same text twice
/// yields the same tokens, or the same fault.
pub proof fn lemma_tokenize_idempotent(a: Seq<char>, b: Seq<char>)
    requires
        a == b,
    ensures
        tokens_of(a) == tokens_of(b),
{
}

/// No newline in `t`.
pub open spec fn no_newline(t: Seq<char>) -> bool {
    forall|i: int| 0 <= i < t.len() ==> t[i] != '\n'
}

proof fn lemma_digits_run(src: Seq<char>, i: int, k: int)
    requires
        i <= k < digits_end(src, i),
    ensures
        0 <= k < src.len() && is_digit(src[k]),
    decreases k - i,
{
    if k > i {
        lemma_digits_run(src, i + 1, k);
    }
}

proof fn lemma_alnum_run(src: Seq<char>, i: int, k: int)
    requires
        i <= k < alnum_end(src, i),
    ensures
        0 <= k < src.len() && src[k] != '\n',
    decreases k - i,
{
    if k > i {
        lemma_alnum_run(src, i + 1, k);
    }
}

proof fn lemma_string_run(src: Seq<char>, i: int, k: int)
    requires
        i <= k < string_end(src, i),
    ensures
        0 <= k < src.len() && !is_string_stop(src[k]),
    decreases k - i,
{
    if k > i {
        lemma_string_run(src, i + 1, k);
    }
}

/// Every character of a token other than `NEWLINE` or `EOF` lies in the
/// source and is no newline.
proof fn lemma_token_char(src: Seq<char>, p: int, k: int)
    requires
        0 <= p,
        scan(src, p) matches Ok((t, e)) && t.1 != TokenType::NEWLINE && t.1 != TokenType::EOF
            && skip_comment(src, skip_blanks(src, p)) <= k < e,
    ensures
        0 <= k < src.len() && src[k] != '\n',
{
    lemma_skip_blanks_ge(src, p);
    let b = skip_blanks(src, p);
    lemma_line_end_ge(src, b);
    let q = skip_comment(src, b);
    let e1 = digits_end(src, q + 1);
    if q < k < string_end(src, q + 1) {
        lemma_string_run(src, q + 1, k);
    }
    if q < k < e1 {
        lemma_digits_run(src, q + 1, k);
    }
    if e1 + 1 <= k < digits_end(src, e1 + 1) {
        lemma_digits_run(src, e1 + 1, k);
    }
    if q < k < alnum_end(src, q + 1) {
        lemma_alnum_run(src, q + 1, k);
    }
}

/// Only a `NEWLINE` token's text holds a newline.
pub proof fn lemma_scan_text(src: Seq<char>, p: int)
    requires
        0 <= p,
    ensures
        scan(src, p) matches Ok((t, e)) ==> t.1 == TokenType::NEWLINE || no_newline(t.0),
{
    lemma_scan_progress(src, p);
    lemma_skip_blanks_ge(src, p);
    let b = skip_blanks(src, p);
    lemma_line_end_ge(src, b);
    let q = skip_comment(src, b);
    if let Ok((t, e)) = scan(src, p) {
        if t.1 != TokenType::NEWLINE && t.1 != TokenType::EOF {
            lemma_string_end_ge(src, q + 1);
            lemma_digits_end_ge(src, q + 1);
            lemma_digits_end_ge(src, digits_end(src, q + 1) + 1);
            lemma_alnum_end_ge(src, q + 1);
            assert(q < e);
            lemma_token_char(src, p, e - 1);
            assert(t.0 == src.subrange(q, e));
            assert forall|i: int| 0 <= i < t.0.len() implies t.0[i] != '\n' by {
                lemma_token_char(src, p, q + i);
                assert(t.0[i] == src[q + i]);
            }
        }
    }
}

/// A string literal's body stops before the end of a source that ends in a newline.
proof fn lemma_string_end_bounded(src: Seq<char>, i: int)
    requires
        0 <= i < src.len(),
        src.last() == '\n',
    ensures
        i <= string_end(src, i) < src.len(),
    decreases src.len() - i,
{
    if !is_string_stop(src[i]) {
        lemma_string_end_bounded(src, i + 1);
    }
}

fn is_blank_char(c: char) -> (r: bool)
    ensures
        r == is_blank(c),
{
    c == ' ' || c == '\t' || c == '\r'
}

} // verus!
