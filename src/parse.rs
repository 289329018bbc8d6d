use vstd::prelude::*;
use crate::emit::Emitter;
use crate::lex::{lemma_scan_progress, scan, source_of, LexError, Lexer, Token, TokenType, TokenView};
use crate::names::{first_missing, NameSet};

verus! {

/// The first fault of a translation; it ends the translation.
#[derive(Debug, PartialEq, Eq)]
pub enum TranslateError {
    /// A fault in the character stream.
    Lex(LexError),
    /// The current token is not of the kind the grammar requires here.
    Expected { expected: TokenType, got: TokenType },
    /// A condition without a comparison operator; holds the current token's text.
    ExpectedComparison(String),
    /// A statement that starts with none of the statement keywords.
    InvalidStatement(String, TokenType),
    /// A token where only a number or an identifier may stand.
    UnexpectedToken(String),
    /// A variable read before any LET or INPUT assigned it.
    UndefinedVariable(String),
    /// A second LABEL with the same name.
    LabelExists(String),
    /// A GOTO target that no LABEL declares.
    UndeclaredLabel(String),
}

/// A translation fault, with its texts as character sequences.
pub enum ErrorView {
    Lex(LexError),
    Expected { expected: TokenType, got: TokenType },
    ExpectedComparison(Seq<char>),
    InvalidStatement(Seq<char>, TokenType),
    UnexpectedToken(Seq<char>),
    UndefinedVariable(Seq<char>),
    LabelExists(Seq<char>),
    UndeclaredLabel(Seq<char>),
}

impl View for TranslateError {
    type V = ErrorView;

    open spec fn view(&self) -> ErrorView {
        match self {
            TranslateError::Lex(e) => ErrorView::Lex(*e),
            TranslateError::Expected { expected, got } => ErrorView::Expected {
                expected: *expected,
                got: *got,
            },
            TranslateError::ExpectedComparison(t) => ErrorView::ExpectedComparison(t@),
            TranslateError::InvalidStatement(t, k) => ErrorView::InvalidStatement(t@, *k),
            TranslateError::UnexpectedToken(t) => ErrorView::UnexpectedToken(t@),
            TranslateError::UndefinedVariable(t) => ErrorView::UndefinedVariable(t@),
            TranslateError::LabelExists(t) => ErrorView::LabelExists(t@),
            TranslateError::UndeclaredLabel(t) => ErrorView::UndeclaredLabel(t@),
        }
    }
}

/// The translator's state: the tokenizer's position, the current and the
/// lookahead token, the assigned variables, the declared labels, the GOTO
/// targets in order of first reference, the output so far, and how many
/// block-open and block-close markers the output holds.
pub struct PState {
    pub pos: int,
    pub cur: TokenView,
    pub peek: TokenView,
    pub symbols: Set<Seq<char>>,
    pub declared: Set<Seq<char>>,
    pub gotoed: Seq<Seq<char>>,
    pub header: Seq<char>,
    pub body: Seq<char>,
    pub opened: nat,
    pub closed: nat,
}

pub type Step = Result<PState, ErrorView>;

/// What is left to read: the characters after the cursor, and the two tokens
/// of the window unless they are end-of-input. Each repetition in the grammar
/// consumes a token before it repeats; the rules below test that the measure
/// dropped before they recurse, a test that the translator's own runs always
/// pass.
pub open spec fn measure(s: Seq<char>, st: PState) -> nat {
    let rest: int = if st.pos <= s.len() { s.len() - st.pos } else { 0 };
    (rest + (if st.cur.1 != TokenType::EOF { 1int } else { 0int }) + (if st.peek.1
        != TokenType::EOF { 1int } else { 0int })) as nat
}

/// Shifts the lookahead into the current slot and scans a new lookahead.
pub open spec fn advance(s: Seq<char>, st: PState) -> Step {
    match scan(s, st.pos) {
        Ok((t, e)) => Ok(PState { pos: e, cur: st.peek, peek: t, ..st }),
        Err(x) => Err(ErrorView::Lex(x)),
    }
}

pub open spec fn expect(s: Seq<char>, st: PState, k: TokenType) -> Step {
    if st.cur.1 == k {
        advance(s, st)
    } else {
        Err(ErrorView::Expected { expected: k, got: st.cur.1 })
    }
}

pub open spec fn emit(st: PState, t: Seq<char>) -> PState {
    PState { body: st.body + t, ..st }
}

pub open spec fn emit_line(st: PState, t: Seq<char>) -> PState {
    emit(emit(st, t), "\n"@)
}

pub open spec fn header_line(st: PState, t: Seq<char>) -> PState {
    PState { header: st.header + t + "\n"@, ..st }
}

/// Emits a line that opens a block.
pub open spec fn open_line(st: PState, t: Seq<char>) -> PState {
    PState { opened: st.opened + 1, ..emit_line(st, t) }
}

/// Emits the line that closes a block.
pub open spec fn close_line(st: PState) -> PState {
    PState { closed: st.closed + 1, ..emit_line(st, "}"@) }
}

/// Skips a run of newline tokens.
pub open spec fn skip_newlines(s: Seq<char>, st: PState) -> Step
    decreases measure(s, st),
{
    if st.cur.1 == TokenType::NEWLINE {
        match advance(s, st) {
            Ok(s1) => if measure(s, s1) < measure(s, st) {
                skip_newlines(s, s1)
            } else {
                Ok(s1)
            },
            Err(e) => Err(e),
        }
    } else {
        Ok(st)
    }
}

/// nl ::= NEWLINE {NEWLINE}
pub open spec fn nl(s: Seq<char>, st: PState) -> Step {
    match expect(s, st, TokenType::NEWLINE) {
        Ok(s1) => skip_newlines(s, s1),
        Err(e) => Err(e),
    }
}

/// primary ::= number | ident; an identifier must have been assigned.
pub open spec fn primary(s: Seq<char>, st: PState) -> Step {
    if st.cur.1 == TokenType::NUMBER {
        advance(s, emit(st, st.cur.0))
    } else if st.cur.1 == TokenType::IDENT {
        if st.symbols.contains(st.cur.0) {
            advance(s, emit(st, st.cur.0))
        } else {
            Err(ErrorView::UndefinedVariable(st.cur.0))
        }
    } else {
        Err(ErrorView::UnexpectedToken(st.cur.0))
    }
}

pub open spec fn is_sign(k: TokenType) -> bool {
    k == TokenType::PLUS || k == TokenType::MINUS
}

pub open spec fn is_factor_op(k: TokenType) -> bool {
    k == TokenType::ASTERISK || k == TokenType::SLASH
}

pub open spec fn is_comparison_op(k: TokenType) -> bool {
    k == TokenType::GT || k == TokenType::GTEQ || k == TokenType::LT || k == TokenType::LTEQ
        || k == TokenType::EQEQ || k == TokenType::NOTEQ
}

/// unary ::= ["+"|"-"] primary
pub open spec fn unary(s: Seq<char>, st: PState) -> Step {
    if is_sign(st.cur.1) {
        match advance(s, emit(st, st.cur.0)) {
            Ok(s1) => primary(s, s1),
            Err(e) => Err(e),
        }
    } else {
        primary(s, st)
    }
}

/// { ("*"|"/") unary }
pub open spec fn term_rest(s: Seq<char>, st: PState) -> Step
    decreases measure(s, st),
{
    if is_factor_op(st.cur.1) {
        match advance(s, emit(st, st.cur.0)) {
            Ok(s1) => match unary(s, s1) {
                Ok(s2) => if measure(s, s2) < measure(s, st) {
                    term_rest(s, s2)
                } else {
                    Ok(s2)
                },
                Err(e) => Err(e),
            },
            Err(e) => Err(e),
        }
    } else {
        Ok(st)
    }
}

/// term ::= unary { ("*"|"/") unary }
pub open spec fn term(s: Seq<char>, st: PState) -> Step {
    match unary(s, st) {
        Ok(s1) => term_rest(s, s1),
        Err(e) => Err(e),
    }
}

/// { ("+"|"-") term }
pub open spec fn expression_rest(s: Seq<char>, st: PState) -> Step
    decreases measure(s, st),
{
    if is_sign(st.cur.1) {
        match advance(s, emit(st, st.cur.0)) {
            Ok(s1) => match term(s, s1) {
                Ok(s2) => if measure(s, s2) < measure(s, st) {
                    expression_rest(s, s2)
                } else {
                    Ok(s2)
                },
                Err(e) => Err(e),
            },
            Err(e) => Err(e),
        }
    } else {
        Ok(st)
    }
}

/// expression ::= term { ("+"|"-") term }
pub open spec fn expression(s: Seq<char>, st: PState) -> Step {
    match term(s, st) {
        Ok(s1) => expression_rest(s, s1),
        Err(e) => Err(e),
    }
}

/// { comparisonOp expression }
pub open spec fn comparison_rest(s: Seq<char>, st: PState) -> Step
    decreases measure(s, st),
{
    if is_comparison_op(st.cur.1) {
        match advance(s, emit(st, st.cur.0)) {
            Ok(s1) => match expression(s, s1) {
                Ok(s2) => if measure(s, s2) < measure(s, st) {
                    comparison_rest(s, s2)
                } else {
                    Ok(s2)
                },
                Err(e) => Err(e),
            },
            Err(e) => Err(e),
        }
    } else {
        Ok(st)
    }
}

/// comparison ::= expression ( comparisonOp expression )+, as one
/// parenthesized group.
pub open spec fn comparison(s: Seq<char>, st: PState) -> Step {
    match expression(s, emit(st, "("@)) {
        Ok(s1) => if is_comparison_op(s1.cur.1) {
            match advance(s, emit(s1, s1.cur.0)) {
                Ok(s2) => match expression(s, s2) {
                    Ok(s3) => match comparison_rest(s, s3) {
                        Ok(s4) => Ok(emit(s4, ")"@)),
                        Err(e) => Err(e),
                    },
                    Err(e) => Err(e),
                },
                Err(e) => Err(e),
            }
        } else {
            Err(ErrorView::ExpectedComparison(s1.cur.0))
        },
        Err(e) => Err(e),
    }
}

/// A string token's text without its delimiting quotes.
pub open spec fn literal_body(t: Seq<char>) -> Seq<char> {
    if t.len() >= 2 {
        t.subrange(1, t.len() - 1)
    } else {
        t
    }
}

/// Registers `name` as a variable; a new one gets a declaration in the preamble.
pub open spec fn declare(st: PState, name: Seq<char>) -> PState {
    if st.symbols.contains(name) {
        st
    } else {
        header_line(PState { symbols: st.symbols.insert(name), ..st }, "float "@ + name + ";"@)
    }
}

/// "PRINT" ( string | expression ), after the keyword.
pub open spec fn print_rest(s: Seq<char>, st: PState) -> Step {
    if st.cur.1 == TokenType::STRING {
        let s1 = emit_line(emit(emit(st, "printf(\""@), literal_body(st.cur.0)), "\\n\");"@);
        advance(s, s1)
    } else {
        match expression(s, emit(st, "printf(\"%.2f\\n\", (float)("@)) {
            Ok(s1) => Ok(emit_line(s1, "));"@)),
            Err(e) => Err(e),
        }
    }
}

/// "LABEL" ident, after the keyword.
pub open spec fn label_rest(s: Seq<char>, st: PState) -> Step {
    let name = st.cur.0;
    if st.declared.contains(name) {
        Err(ErrorView::LabelExists(name))
    } else {
        let s1 = PState { declared: st.declared.insert(name), ..st };
        expect(s, emit_line(emit(s1, name), ":"@), TokenType::IDENT)
    }
}

/// "GOTO" ident, after the keyword.
pub open spec fn goto_rest(s: Seq<char>, st: PState) -> Step {
    let name = st.cur.0;
    let g = if st.gotoed.contains(name) {
        st.gotoed
    } else {
        st.gotoed.push(name)
    };
    let s1 = PState { gotoed: g, ..st };
    expect(s, emit_line(emit(emit(s1, "goto "@), name), ";"@), TokenType::IDENT)
}

/// "LET" ident "=" expression, after the keyword.
pub open spec fn let_rest(s: Seq<char>, st: PState) -> Step {
    let name = st.cur.0;
    let s1 = emit(emit(declare(st, name), name), " = "@);
    match expect(s, s1, TokenType::IDENT) {
        Ok(s2) => match expect(s, s2, TokenType::EQ) {
            Ok(s3) => match expression(s, s3) {
                Ok(s4) => Ok(emit_line(s4, ";"@)),
                Err(e) => Err(e),
            },
            Err(e) => Err(e),
        },
        Err(e) => Err(e),
    }
}

/// "INPUT" ident, after the keyword: a guarded numeric read.
pub open spec fn input_rest(s: Seq<char>, st: PState) -> Step {
    let name = st.cur.0;
    let s1 = open_line(emit(emit(declare(st, name), "if(0 == scanf(\"%f\", &"@), name), ")) {"@);
    let s2 = emit_line(emit(s1, name), " = 0;"@);
    let s3 = close_line(emit_line(emit(s2, "scanf(\"%"@), "*s\");"@));
    expect(s, s3, TokenType::IDENT)
}

/// The guard, the opener and the nested statements of an IF or a WHILE,
/// after its keyword.
pub open spec fn block_stmt(s: Seq<char>, st: PState, opener: Seq<char>, mid: TokenType, end: TokenType) -> Step
    decreases measure(s, st), 2nat,
{
    match comparison(s, emit(st, opener)) {
        Ok(s1) => match expect(s, s1, mid) {
            Ok(s2) => match nl(s, s2) {
                Ok(s3) => if measure(s, s3) <= measure(s, st) {
                    match block(s, open_line(s3, "){"@), end) {
                        Ok(s4) => match expect(s, s4, end) {
                            Ok(s5) => Ok(close_line(s5)),
                            Err(e) => Err(e),
                        },
                        Err(e) => Err(e),
                    }
                } else {
                    Ok(s3)
                },
                Err(e) => Err(e),
            },
            Err(e) => Err(e),
        },
        Err(e) => Err(e),
    }
}

/// statement, with the newlines that end it.
pub open spec fn statement(s: Seq<char>, st: PState) -> Step
    decreases measure(s, st), 0nat,
{
    let k = st.cur.1;
    if k == TokenType::PRINT || k == TokenType::IF || k == TokenType::WHILE || k == TokenType::LABEL
        || k == TokenType::GOTO || k == TokenType::LET || k == TokenType::INPUT {
        match advance(s, st) {
            Ok(s1) => {
                let r = if k == TokenType::PRINT {
                    print_rest(s, s1)
                } else if k == TokenType::IF {
                    if measure(s, s1) < measure(s, st) {
                        block_stmt(s, s1, "if("@, TokenType::THEN, TokenType::ENDIF)
                    } else {
                        Ok(s1)
                    }
                } else if k == TokenType::WHILE {
                    if measure(s, s1) < measure(s, st) {
                        block_stmt(s, s1, "while("@, TokenType::REPEAT, TokenType::ENDWHILE)
                    } else {
                        Ok(s1)
                    }
                } else if k == TokenType::LABEL {
                    label_rest(s, s1)
                } else if k == TokenType::GOTO {
                    goto_rest(s, s1)
                } else if k == TokenType::LET {
                    let_rest(s, s1)
                } else {
                    input_rest(s, s1)
                };
                match r {
                    Ok(s2) => nl(s, s2),
                    Err(e) => Err(e),
                }
            },
            Err(e) => Err(e),
        }
    } else {
        Err(ErrorView::InvalidStatement(st.cur.0, k))
    }
}

/// {statement}, up to a token of kind `end`.
pub open spec fn block(s: Seq<char>, st: PState, end: TokenType) -> Step
    decreases measure(s, st), 1nat,
{
    if st.cur.1 == end {
        Ok(st)
    } else {
        match statement(s, st) {
            Ok(s1) => if measure(s, s1) < measure(s, st) {
                block(s, s1, end)
            } else {
                Ok(s1)
            },
            Err(e) => Err(e),
        }
    }
}

/// The fixed closing, then the check that every GOTO target is declared.
pub open spec fn finish(st: PState) -> Step {
    let s1 = close_line(emit_line(st, "return 0;"@));
    match first_missing(s1.gotoed, s1.declared) {
        Some(n) => Err(ErrorView::UndeclaredLabel(n)),
        None => Ok(s1),
    }
}

/// The fixed opening: the standard I/O include and the entry point.
pub open spec fn opening(st: PState) -> PState {
    PState {
        opened: st.opened + 1,
        ..header_line(header_line(st, "#include <stdio.h>"@), "int main(void){"@)
    }
}

/// program ::= {statement}, between the fixed opening and closing, followed by
/// the check that every GOTO target is declared.
pub open spec fn program(s: Seq<char>, st: PState) -> Step {
    match skip_newlines(s, opening(st)) {
        Ok(s1) => match block(s, s1, TokenType::EOF) {
            Ok(s2) => finish(s2),
            Err(e) => Err(e),
        },
        Err(e) => Err(e),
    }
}

/// An exec result `r`, leaving the state `after`, is the outcome `step`.
pub open spec fn follows(r: Result<(), TranslateError>, after: PState, step: Step) -> bool {
    match step {
        Ok(st) => r is Ok && after == st,
        Err(e) => r matches Err(x) && x@ == e,
    }
}

/// Fills the two-token window.
pub open spec fn prime(s: Seq<char>, st: PState) -> Step {
    match advance(s, st) {
        Ok(s1) => advance(s, s1),
        Err(e) => Err(e),
    }
}

/// The state before the window is filled.
pub open spec fn initial(pos: int, header: Seq<char>, body: Seq<char>) -> PState {
    PState {
        pos,
        cur: (Seq::empty(), TokenType::EOF),
        peek: (Seq::empty(), TokenType::EOF),
        symbols: Set::empty(),
        declared: Set::empty(),
        gotoed: Seq::empty(),
        header,
        body,
        opened: 0,
        closed: 0,
    }
}

/// The translator's final state for a whole source text.
pub open spec fn translated(input: Seq<char>) -> Step {
    let s = source_of(input);
    match prime(s, initial(0, Seq::empty(), Seq::empty())) {
        Ok(s1) => program(s, s1),
        Err(e) => Err(e),
    }
}

/// The artifact for a whole source text: the preamble, then the body.
pub open spec fn translation(input: Seq<char>) -> Result<Seq<char>, ErrorView> {
    match translated(input) {
        Ok(st) => Ok(st.header + st.body),
        Err(e) => Err(e),
    }
}

/// The recursive-descent translator: a tokenizer, a two-token window, the
/// sets of assigned variables and of declared and referenced labels, and the
/// output buffer.
pub struct Parser {
    lexer: Lexer,
    emitter: Emitter,
    symbols: NameSet,
    labels_declared: NameSet,
    labels_gotoed: NameSet,
    cur_token: Token,
    peek_token: Token,
    opened: Ghost<nat>,
    closed: Ghost<nat>,
}

impl Parser {
    pub closed spec fn src(&self) -> Seq<char> {
        self.lexer.src()
    }

    pub closed spec fn state(&self) -> PState {
        PState {
            pos: self.lexer.pos(),
            cur: self.cur_token@,
            peek: self.peek_token@,
            symbols: self.symbols@,
            declared: self.labels_declared@,
            gotoed: self.labels_gotoed.order(),
            header: self.emitter.header_text(),
            body: self.emitter.body_text(),
            opened: self.opened@,
            closed: self.closed@,
        }
    }

    pub closed spec fn wf(&self) -> bool {
        &&& self.lexer.wf()
        &&& self.symbols.wf()
        &&& self.labels_declared.wf()
        &&& self.labels_gotoed.wf()
    }

    /// Builds the translator and fills its two-token window.
    pub fn new(lexer: Lexer, emitter: Emitter) -> (r: Result<Self, TranslateError>)
        requires
            lexer.wf(),
        ensures
            match prime(
                lexer.src(),
                initial(lexer.pos(), emitter.header_text(), emitter.body_text()),
            ) {
                Ok(st) => r matches Ok(p) && p.wf() && p.src() == lexer.src() && p.state() == st,
                Err(e) => r matches Err(x) && x@ == e,
            },
    {
        let mut parser = Parser {
            lexer,
            emitter,
            symbols: NameSet::new(),
            labels_declared: NameSet::new(),
            labels_gotoed: NameSet::new(),
            cur_token: Token::new(String::new(), TokenType::EOF),
            peek_token: Token::new(String::new(), TokenType::EOF),
            opened: Ghost(0),
            closed: Ghost(0),
        };
        match parser.next_token() {
            Ok(()) => {},
            Err(e) => return Err(e),
        }
        match parser.next_token() {
            Ok(()) => {},
            Err(e) => return Err(e),
        }
        Ok(parser)
    }

    fn check_token(&self, kind: TokenType) -> (r: bool)
        ensures
            r == (self.state().cur.1 == kind),
    {
        kind == self.cur_token.kind
    }

    fn check_peek(&self, kind: TokenType) -> (r: bool)
        ensures
            r == (self.state().peek.1 == kind),
    {
        kind == self.peek_token.kind
    }

    fn next_token(&mut self) -> (r: Result<(), TranslateError>)
        requires
            old(self).wf(),
        ensures
            final(self).wf(),
            final(self).src() == old(self).src(),
            follows(r, final(self).state(), advance(old(self).src(), old(self).state())),
            r is Ok ==> measure(final(self).src(), final(self).state()) <= measure(
                old(self).src(),
                old(self).state(),
            ),
            r is Ok && old(self).state().cur.1 != TokenType::EOF ==> measure(
                final(self).src(),
                final(self).state(),
            ) < measure(old(self).src(), old(self).state()),
    {
        proof {
            lemma_scan_progress(self.src(), self.state().pos);
        }
        match self.lexer.get_token() {
            Ok(t) => {
                std::mem::swap(&mut self.cur_token, &mut self.peek_token);
                self.peek_token = t;
                Ok(())
            },
            Err(e) => Err(TranslateError::Lex(e)),
        }
    }

    fn match_token(&mut self, kind: TokenType) -> (r: Result<(), TranslateError>)
        requires
            old(self).wf(),
        ensures
            final(self).wf(),
            final(self).src() == old(self).src(),
            follows(r, final(self).state(), expect(old(self).src(), old(self).state(), kind)),
            r is Ok ==> measure(final(self).src(), final(self).state()) <= measure(
                old(self).src(),
                old(self).state(),
            ),
            r is Ok && kind != TokenType::EOF ==> measure(final(self).src(), final(self).state())
                < measure(old(self).src(), old(self).state()),
    {
        if !self.check_token(kind) {
            return Err(TranslateError::Expected { expected: kind, got: self.cur_token.kind });
        }
        self.next_token()
    }

    fn skip_newlines(&mut self) -> (r: Result<(), TranslateError>)
        requires
            old(self).wf(),
        ensures
            final(self).wf(),
            final(self).src() == old(self).src(),
            follows(r, final(self).state(), skip_newlines(old(self).src(), old(self).state())),
            r is Ok ==> measure(final(self).src(), final(self).state()) <= measure(
                old(self).src(),
                old(self).state(),
            ),
    {
        while self.check_token(TokenType::NEWLINE)
            invariant
                self.wf(),
                self.src() == old(self).src(),
                skip_newlines(self.src(), self.state()) == skip_newlines(
                    old(self).src(),
                    old(self).state(),
                ),
                measure(self.src(), self.state()) <= measure(old(self).src(), old(self).state()),
            decreases measure(self.src(), self.state()),
        {
            match self.next_token() {
                Ok(()) => {},
                Err(e) => return Err(e),
            }
        }
        Ok(())
    }

    // nl ::= NEWLINE {NEWLINE}
    fn nl(&mut self) -> (r: Result<(), TranslateError>)
        requires
            old(self).wf(),
        ensures
            final(self).wf(),
            final(self).src() == old(self).src(),
            follows(r, final(self).state(), nl(old(self).src(), old(self).state())),
            r is Ok ==> measure(final(self).src(), final(self).state()) < measure(
                old(self).src(),
                old(self).state(),
            ),
    {
        match self.match_token(TokenType::NEWLINE) {
            Ok(()) => {},
            Err(e) => return Err(e),
        }
        self.skip_newlines()
    }

    // primary ::= number | ident
    fn primary(&mut self) -> (r: Result<(), TranslateError>)
        requires
            old(self).wf(),
        ensures
            final(self).wf(),
            final(self).src() == old(self).src(),
            follows(r, final(self).state(), primary(old(self).src(), old(self).state())),
            r is Ok ==> measure(final(self).src(), final(self).state()) < measure(
                old(self).src(),
                old(self).state(),
            ),
    {
        if self.check_token(TokenType::NUMBER) {
            self.emitter.emit(self.cur_token.text.as_str());
            self.next_token()
        } else if self.check_token(TokenType::IDENT) {
            if !self.symbols.contains(&self.cur_token.text) {
                return Err(TranslateError::UndefinedVariable(self.cur_token.text.clone()));
            }
            self.emitter.emit(self.cur_token.text.as_str());
            self.next_token()
        } else {
            Err(TranslateError::UnexpectedToken(self.cur_token.text.clone()))
        }
    }

    // unary ::= ["+" | "-"] primary
    fn unary(&mut self) -> (r: Result<(), TranslateError>)
        requires
            old(self).wf(),
        ensures
            final(self).wf(),
            final(self).src() == old(self).src(),
            follows(r, final(self).state(), unary(old(self).src(), old(self).state())),
            r is Ok ==> measure(final(self).src(), final(self).state()) < measure(
                old(self).src(),
                old(self).state(),
            ),
    {
        if self.check_token(TokenType::PLUS) || self.check_token(TokenType::MINUS) {
            self.emitter.emit(self.cur_token.text.as_str());
            match self.next_token() {
                Ok(()) => {},
                Err(e) => return Err(e),
            }
        }
        self.primary()
    }

    // term ::= unary {( "/" | "*" ) unary}
    fn term(&mut self) -> (r: Result<(), TranslateError>)
        requires
            old(self).wf(),
        ensures
            final(self).wf(),
            final(self).src() == old(self).src(),
            follows(r, final(self).state(), term(old(self).src(), old(self).state())),
            r is Ok ==> measure(final(self).src(), final(self).state()) < measure(
                old(self).src(),
                old(self).state(),
            ),
    {
        match self.unary() {
            Ok(()) => {},
            Err(e) => return Err(e),
        }
        let ghost s1 = self.state();
        while self.check_token(TokenType::ASTERISK) || self.check_token(TokenType::SLASH)
            invariant
                self.wf(),
                self.src() == old(self).src(),
                term_rest(self.src(), self.state()) == term_rest(self.src(), s1),
                term(self.src(), old(self).state()) == term_rest(self.src(), s1),
                measure(self.src(), self.state()) <= measure(self.src(), s1),
                measure(self.src(), s1) < measure(old(self).src(), old(self).state()),
            decreases measure(self.src(), self.state()),
        {
            self.emitter.emit(self.cur_token.text.as_str());
            match self.next_token() {
                Ok(()) => {},
                Err(e) => return Err(e),
            }
            match self.unary() {
                Ok(()) => {},
                Err(e) => return Err(e),
            }
        }
        Ok(())
    }

    // expression ::= term {( "-" | "+" ) term}
    fn expression(&mut self) -> (r: Result<(), TranslateError>)
        requires
            old(self).wf(),
        ensures
            final(self).wf(),
            final(self).src() == old(self).src(),
            follows(r, final(self).state(), expression(old(self).src(), old(self).state())),
            r is Ok ==> measure(final(self).src(), final(self).state()) < measure(
                old(self).src(),
                old(self).state(),
            ),
    {
        match self.term() {
            Ok(()) => {},
            Err(e) => return Err(e),
        }
        let ghost s1 = self.state();
        while self.check_token(TokenType::PLUS) || self.check_token(TokenType::MINUS)
            invariant
                self.wf(),
                self.src() == old(self).src(),
                expression_rest(self.src(), self.state()) == expression_rest(self.src(), s1),
                expression(self.src(), old(self).state()) == expression_rest(self.src(), s1),
                measure(self.src(), self.state()) <= measure(self.src(), s1),
                measure(self.src(), s1) < measure(old(self).src(), old(self).state()),
            decreases measure(self.src(), self.state()),
        {
            self.emitter.emit(self.cur_token.text.as_str());
            match self.next_token() {
                Ok(()) => {},
                Err(e) => return Err(e),
            }
            match self.term() {
                Ok(()) => {},
                Err(e) => return Err(e),
            }
        }
        Ok(())
    }

    fn is_comparison_operator(&self) -> (r: bool)
        ensures
            r == is_comparison_op(self.state().cur.1),
    {
        self.check_token(TokenType::GT) || self.check_token(TokenType::GTEQ) || self.check_token(
            TokenType::LT,
        ) || self.check_token(TokenType::LTEQ) || self.check_token(TokenType::EQEQ)
            || self.check_token(TokenType::NOTEQ)
    }

    // comparison ::= expression (("==" | "!=" | ">" | ">=" | "<" | "<=") expression)+
    fn comparison(&mut self) -> (r: Result<(), TranslateError>)
        requires
            old(self).wf(),
        ensures
            final(self).wf(),
            final(self).src() == old(self).src(),
            follows(r, final(self).state(), comparison(old(self).src(), old(self).state())),
            r is Ok ==> measure(final(self).src(), final(self).state()) < measure(
                old(self).src(),
                old(self).state(),
            ),
    {
        self.emitter.emit("(");
        match self.expression() {
            Ok(()) => {},
            Err(e) => return Err(e),
        }
        if !self.is_comparison_operator() {
            return Err(TranslateError::ExpectedComparison(self.cur_token.text.clone()));
        }
        self.emitter.emit(self.cur_token.text.as_str());
        match self.next_token() {
            Ok(()) => {},
            Err(e) => return Err(e),
        }
        match self.expression() {
            Ok(()) => {},
            Err(e) => return Err(e),
        }
        let ghost s3 = self.state();
        while self.is_comparison_operator()
            invariant
                self.wf(),
                self.src() == old(self).src(),
                comparison_rest(self.src(), self.state()) == comparison_rest(self.src(), s3),
                comparison(self.src(), old(self).state()) == match comparison_rest(self.src(), s3) {
                    Ok(s4) => Ok(emit(s4, ")"@)),
                    Err(e) => Err(e),
                },
                measure(self.src(), self.state()) <= measure(self.src(), s3),
                measure(self.src(), s3) < measure(old(self).src(), old(self).state()),
            decreases measure(self.src(), self.state()),
        {
            self.emitter.emit(self.cur_token.text.as_str());
            match self.next_token() {
                Ok(()) => {},
                Err(e) => return Err(e),
            }
            match self.expression() {
                Ok(()) => {},
                Err(e) => return Err(e),
            }
        }
        self.emitter.emit(")");
        Ok(())
    }
    /// Registers the current token's text as a variable; a new one gets a
    /// declaration in the preamble.
    fn declare_current(&mut self)
        requires
            old(self).wf(),
        ensures
            final(self).wf(),
            final(self).src() == old(self).src(),
            final(self).state() == declare(old(self).state(), old(self).state().cur.0),
    {
        if !self.symbols.contains(&self.cur_token.text) {
            self.symbols.insert(self.cur_token.text.clone());
            let mut decl = String::from_str("float ");
            decl.append(self.cur_token.text.as_str());
            decl.append(";");
            self.emitter.header_line(decl.as_str());
        }
    }

    /// The guard, the opener and the nested statements of an IF or a WHILE,
    /// after its keyword.
    fn block_statement(&mut self, opener: &str, mid: TokenType, end: TokenType) -> (r: Result<
        (),
        TranslateError,
    >)
        requires
            old(self).wf(),
        ensures
            final(self).wf(),
            final(self).src() == old(self).src(),
            follows(
                r,
                final(self).state(),
                block_stmt(old(self).src(), old(self).state(), opener@, mid, end),
            ),
            r is Ok ==> measure(final(self).src(), final(self).state()) < measure(
                old(self).src(),
                old(self).state(),
            ),
        decreases measure(old(self).src(), old(self).state()), 2nat,
    {
        self.emitter.emit(opener);
        match self.comparison() {
            Ok(()) => {},
            Err(e) => return Err(e),
        }
        match self.match_token(mid) {
            Ok(()) => {},
            Err(e) => return Err(e),
        }
        match self.nl() {
            Ok(()) => {},
            Err(e) => return Err(e),
        }
        self.emitter.emit_line("){");
        self.opened = Ghost(self.opened@ + 1);
        let ghost s3 = self.state();
        while !self.check_token(end)
            invariant
                self.wf(),
                self.src() == old(self).src(),
                block(self.src(), self.state(), end) == block(self.src(), s3, end),
                block_stmt(self.src(), old(self).state(), opener@, mid, end) == match block(
                    self.src(),
                    s3,
                    end,
                ) {
                    Ok(s4) => match expect(self.src(), s4, end) {
                        Ok(s5) => Ok(close_line(s5)),
                        Err(e) => Err(e),
                    },
                    Err(e) => Err(e),
                },
                measure(self.src(), self.state()) <= measure(self.src(), s3),
                measure(self.src(), s3) < measure(old(self).src(), old(self).state()),
            decreases measure(self.src(), self.state()),
        {
            match self.statement() {
                Ok(()) => {},
                Err(e) => return Err(e),
            }
        }
        match self.match_token(end) {
            Ok(()) => {},
            Err(e) => return Err(e),
        }
        self.emitter.emit_line("}");
        self.closed = Ghost(self.closed@ + 1);
        Ok(())
    }

    /// Translates one statement and the newlines that end it.
    #[verifier::rlimit(50)]
    fn statement(&mut self) -> (r: Result<(), TranslateError>)
        requires
            old(self).wf(),
        ensures
            final(self).wf(),
            final(self).src() == old(self).src(),
            follows(r, final(self).state(), statement(old(self).src(), old(self).state())),
            r is Ok ==> measure(final(self).src(), final(self).state()) < measure(
                old(self).src(),
                old(self).state(),
            ),
        decreases measure(old(self).src(), old(self).state()), 0nat,
    {
        // "PRINT" (expression | string)
        if self.check_token(TokenType::PRINT) {
            match self.next_token() {
                Ok(()) => {},
                Err(e) => return Err(e),
            }
            if self.check_token(TokenType::STRING) {
                self.emitter.emit("printf(\"");
                let text = self.cur_token.text.as_str();
                let n = text.unicode_len();
                if n >= 2 {
                    self.emitter.emit(text.substring_char(1, n - 1));
                } else {
                    self.emitter.emit(text);
                }
                self.emitter.emit_line("\\n\");");
                match self.next_token() {
                    Ok(()) => {},
                    Err(e) => return Err(e),
                }
            } else {
                self.emitter.emit("printf(\"%.2f\\n\", (float)(");
                match self.expression() {
                    Ok(()) => {},
                    Err(e) => return Err(e),
                }
                self.emitter.emit_line("));");
            }
        }
        // "IF" comparison "THEN" nl {statement} "ENDIF"
        else if self.check_token(TokenType::IF) {
            match self.next_token() {
                Ok(()) => {},
                Err(e) => return Err(e),
            }
            match self.block_statement("if(", TokenType::THEN, TokenType::ENDIF) {
                Ok(()) => {},
                Err(e) => return Err(e),
            }
        }
        // "WHILE" comparison "REPEAT" nl {statement} "ENDWHILE"
        else if self.check_token(TokenType::WHILE) {
            match self.next_token() {
                Ok(()) => {},
                Err(e) => return Err(e),
            }
            match self.block_statement("while(", TokenType::REPEAT, TokenType::ENDWHILE) {
                Ok(()) => {},
                Err(e) => return Err(e),
            }
        }
        // "LABEL" ident
        else if self.check_token(TokenType::LABEL) {
            match self.next_token() {
                Ok(()) => {},
                Err(e) => return Err(e),
            }
            if self.labels_declared.contains(&self.cur_token.text) {
                return Err(TranslateError::LabelExists(self.cur_token.text.clone()));
            }
            self.labels_declared.insert(self.cur_token.text.clone());
            self.emitter.emit(self.cur_token.text.as_str());
            self.emitter.emit_line(":");
            match self.match_token(TokenType::IDENT) {
                Ok(()) => {},
                Err(e) => return Err(e),
            }
        }
        // "GOTO" ident
        else if self.check_token(TokenType::GOTO) {
            match self.next_token() {
                Ok(()) => {},
                Err(e) => return Err(e),
            }
            proof {
                self.labels_gotoed.lemma_order_contains();
            }
            self.labels_gotoed.insert(self.cur_token.text.clone());
            self.emitter.emit("goto ");
            self.emitter.emit(self.cur_token.text.as_str());
            self.emitter.emit_line(";");
            match self.match_token(TokenType::IDENT) {
                Ok(()) => {},
                Err(e) => return Err(e),
            }
        }
        // "LET" ident "=" expression
        else if self.check_token(TokenType::LET) {
            match self.next_token() {
                Ok(()) => {},
                Err(e) => return Err(e),
            }
            self.declare_current();
            self.emitter.emit(self.cur_token.text.as_str());
            self.emitter.emit(" = ");
            match self.match_token(TokenType::IDENT) {
                Ok(()) => {},
                Err(e) => return Err(e),
            }
            match self.match_token(TokenType::EQ) {
                Ok(()) => {},
                Err(e) => return Err(e),
            }
            match self.expression() {
                Ok(()) => {},
                Err(e) => return Err(e),
            }
            self.emitter.emit_line(";");
        }
        // "INPUT" ident
        else if self.check_token(TokenType::INPUT) {
            match self.next_token() {
                Ok(()) => {},
                Err(e) => return Err(e),
            }
            self.declare_current();
            self.emitter.emit("if(0 == scanf(\"%f\", &");
            self.emitter.emit(self.cur_token.text.as_str());
            self.emitter.emit_line(")) {");
            self.opened = Ghost(self.opened@ + 1);
            self.emitter.emit(self.cur_token.text.as_str());
            self.emitter.emit_line(" = 0;");
            self.emitter.emit("scanf(\"%");
            self.emitter.emit_line("*s\");");
            self.emitter.emit_line("}");
            self.closed = Ghost(self.closed@ + 1);
            match self.match_token(TokenType::IDENT) {
                Ok(()) => {},
                Err(e) => return Err(e),
            }
        } else {
            return Err(
                TranslateError::InvalidStatement(self.cur_token.text.clone(), self.cur_token.kind),
            );
        }
        self.nl()
    }

    /// Translates the whole program: the fixed opening, every statement up to
    /// the end of input, the fixed closing, and then the check that every GOTO
    /// target is a declared label.
    pub fn program(&mut self) -> (r: Result<(), TranslateError>)
        requires
            old(self).wf(),
        ensures
            final(self).wf(),
            final(self).src() == old(self).src(),
            follows(r, final(self).state(), program(old(self).src(), old(self).state())),
    {
        self.emitter.header_line("#include <stdio.h>");
        self.emitter.header_line("int main(void){");
        self.opened = Ghost(self.opened@ + 1);
        match self.skip_newlines() {
            Ok(()) => {},
            Err(e) => return Err(e),
        }
        let ghost s1 = self.state();
        while !self.check_token(TokenType::EOF)
            invariant
                self.wf(),
                self.src() == old(self).src(),
                block(self.src(), self.state(), TokenType::EOF) == block(
                    self.src(),
                    s1,
                    TokenType::EOF,
                ),
                program(self.src(), old(self).state()) == match block(
                    self.src(),
                    s1,
                    TokenType::EOF,
                ) {
                    Ok(s2) => finish(s2),
                    Err(e) => Err(e),
                },
            decreases measure(self.src(), self.state()),
        {
            match self.statement() {
                Ok(()) => {},
                Err(e) => return Err(e),
            }
        }
        self.emitter.emit_line("return 0;");
        self.emitter.emit_line("}");
        self.closed = Ghost(self.closed@ + 1);
        match self.labels_gotoed.first_missing(&self.labels_declared) {
            Some(label) => Err(TranslateError::UndeclaredLabel(label)),
            None => Ok(()),
        }
    }

    /// The artifact so far: the preamble, then the body.
    pub fn output(&self) -> (r: String)
        ensures
            r@ == self.state().header + self.state().body,
    {
        self.emitter.finalize()
    }

    pub fn emitter(&self) -> (r: &Emitter)
        ensures
            r.header_text() == self.state().header,
            r.body_text() == self.state().body,
    {
        &self.emitter
    }
}

/// Translates a whole source text into the artifact (preamble, then body).
pub fn translate(input: String) -> (r: Result<String, TranslateError>)
    requires
        input@.len() + 3 < usize::MAX,
    ensures
        match translation(input@) {
            Ok(out) => r matches Ok(o) && o@ == out,
            Err(e) => r matches Err(x) && x@ == e,
        },
{
    let lexer = Lexer::new(input);
    let emitter = Emitter::new("out.c");
    let mut parser = match Parser::new(lexer, emitter) {
        Ok(p) => p,
        Err(e) => return Err(e),
    };
    match parser.program() {
        Ok(()) => Ok(parser.output()),
        Err(e) => Err(e),
    }
}

} // verus!
