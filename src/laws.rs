use vstd::prelude::*;
use crate::lex::{lemma_scan_progress, lemma_scan_text, no_newline, source_of, TokenType};
use crate::names::first_missing;
use crate::parse::{
    advance, block, block_stmt, close_line, emit_line, header_line, literal_body, comparison, comparison_rest, declare, emit, expect, expression,
    expression_rest, input_rest, is_comparison_op, is_factor_op, is_sign, label_rest, let_rest,
    goto_rest, measure, nl, open_line, opening, prime, primary, print_rest, program,
    skip_newlines, statement, term, term_rest, translated, unary, initial, ErrorView, PState,
    Step,
};

verus! {

/// `t` ends with the character `a` followed by a newline.
pub open spec fn ends_with_marker(t: Seq<char>, a: char) -> bool {
    t.len() >= 2 && t[t.len() - 2] == a && t[t.len() - 1] == '\n'
}

/// How many lines of `t` end with the character `a`: the number of places
/// where `a` is immediately followed by a newline.
pub open spec fn marker_count(t: Seq<char>, a: char) -> nat
    decreases t.len(),
{
    if t.len() == 0 {
        0
    } else {
        marker_count(t.drop_last(), a) + if ends_with_marker(t, a) {
            1nat
        } else {
            0nat
        }
    }
}

/// The block-marker counts of two states agree.
pub open spec fn same_marks(a: PState, b: PState) -> bool {
    a.opened == b.opened && a.closed == b.closed
}

/// The counts of the state are those of its text, and only a `NEWLINE` token
/// of the window holds a newline.
pub open spec fn consistent(st: PState) -> bool {
    &&& st.opened == marker_count(st.header, '{') + marker_count(st.body, '{')
    &&& st.closed == marker_count(st.header, '}') + marker_count(st.body, '}')
    &&& st.header.len() == 0 || st.header.last() == '\n'
    &&& st.cur.1 == TokenType::NEWLINE || no_newline(st.cur.0)
    &&& st.peek.1 == TokenType::NEWLINE || no_newline(st.peek.0)
    &&& st.pos >= 0
}

proof fn lemma_count_plain(t: Seq<char>, u: Seq<char>, a: char)
    requires
        no_newline(u),
    ensures
        marker_count(t + u, a) == marker_count(t, a),
    decreases u.len(),
{
    if u.len() == 0 {
        assert(t + u =~= t);
    } else {
        assert((t + u).drop_last() =~= t + u.drop_last());
        lemma_count_plain(t, u.drop_last(), a);
        assert((t + u)[(t + u).len() - 1] == u[u.len() - 1]);
    }
}

proof fn lemma_count_newline(t: Seq<char>, a: char)
    ensures
        marker_count(t + "\n"@, a) == marker_count(t, a) + if t.len() > 0 && t.last() == a {
            1nat
        } else {
            0nat
        },
{
    reveal_strlit("\n");
    assert((t + "\n"@).drop_last() =~= t);
}

proof fn lemma_count_concat(t: Seq<char>, u: Seq<char>, a: char)
    requires
        t.len() == 0 || t.last() == '\n',
        a != '\n',
    ensures
        marker_count(t + u, a) == marker_count(t, a) + marker_count(u, a),
    decreases u.len(),
{
    if u.len() == 0 {
        assert(t + u =~= t);
    } else {
        assert((t + u).drop_last() =~= t + u.drop_last());
        lemma_count_concat(t, u.drop_last(), a);
        if u.len() >= 2 {
            assert((t + u)[(t + u).len() - 2] == u[u.len() - 2]);
        } else if t.len() > 0 {
            assert((t + u)[(t + u).len() - 2] == t.last());
        }
        assert((t + u)[(t + u).len() - 1] == u[u.len() - 1]);
    }
}

proof fn lemma_plain_concat(x: Seq<char>, y: Seq<char>)
    requires
        no_newline(x),
        no_newline(y),
    ensures
        no_newline(x + y),
{
    assert forall|i: int| 0 <= i < (x + y).len() implies (x + y)[i] != '\n' by {
        if i >= x.len() {
            assert((x + y)[i] == y[i - x.len()]);
        }
    }
}

proof fn lemma_literal_body(t: Seq<char>)
    requires
        no_newline(t),
    ensures
        no_newline(literal_body(t)),
{
    if t.len() >= 2 {
        assert forall|i: int| 0 <= i < literal_body(t).len() implies literal_body(t)[i] != '\n' by {
            assert(literal_body(t)[i] == t[i + 1]);
        }
    }
}

/// The fixed fragments of the output: none holds a newline, and each line
/// ends with the character that marks it.
proof fn lemma_fragments()
    ensures
        no_newline(" = "@),
        no_newline("("@),
        no_newline(")"@),
        no_newline("float "@),
        no_newline("goto "@),
        no_newline("if("@),
        no_newline("if(0 == scanf(\"%f\", &"@),
        no_newline("printf(\""@),
        no_newline("printf(\"%.2f\\n\", (float)("@),
        no_newline("scanf(\"%"@),
        no_newline("while("@),
        no_newline(";"@) && ";"@.len() > 0 && ";"@.last() == ';',
        no_newline(" = 0;"@) && " = 0;"@.len() > 0 && " = 0;"@.last() == ';',
        no_newline("));"@) && "));"@.len() > 0 && "));"@.last() == ';',
        no_newline("*s\");"@) && "*s\");"@.len() > 0 && "*s\");"@.last() == ';',
        no_newline(":"@) && ":"@.len() > 0 && ":"@.last() == ':',
        no_newline("\\n\");"@) && "\\n\");"@.len() > 0 && "\\n\");"@.last() == ';',
        no_newline("return 0;"@) && "return 0;"@.len() > 0 && "return 0;"@.last() == ';',
        no_newline("#include <stdio.h>"@) && "#include <stdio.h>"@.len() > 0
            && "#include <stdio.h>"@.last() == '>',
        no_newline("int main(void){"@) && "int main(void){"@.len() > 0 && "int main(void){"@.last()
            == '{',
        no_newline(")) {"@) && ")) {"@.len() > 0 && ")) {"@.last() == '{',
        no_newline("){"@) && "){"@.len() > 0 && "){"@.last() == '{',
        no_newline("}"@) && "}"@.len() > 0 && "}"@.last() == '}',
{
    reveal_strlit(" = ");
    reveal_strlit("(");
    reveal_strlit(")");
    reveal_strlit("float ");
    reveal_strlit("goto ");
    reveal_strlit("if(");
    reveal_strlit("if(0 == scanf(\"%f\", &");
    reveal_strlit("printf(\"");
    reveal_strlit("printf(\"%.2f\\n\", (float)(");
    reveal_strlit("scanf(\"%");
    reveal_strlit("while(");
    reveal_strlit(";");
    reveal_strlit(" = 0;");
    reveal_strlit("));");
    reveal_strlit("*s\");");
    reveal_strlit(":");
    reveal_strlit("\\n\");");
    reveal_strlit("return 0;");
    reveal_strlit("#include <stdio.h>");
    reveal_strlit("int main(void){");
    reveal_strlit(")) {");
    reveal_strlit("){");
    reveal_strlit("}");
}

proof fn lemma_emit(st: PState, u: Seq<char>)
    requires
        consistent(st),
        no_newline(u),
    ensures
        consistent(emit(st, u)),
        same_marks(st, emit(st, u)),
{
    lemma_count_plain(st.body, u, '{');
    lemma_count_plain(st.body, u, '}');
}

/// A line that ends with neither marker.
proof fn lemma_plain_line(st: PState, t: Seq<char>)
    requires
        consistent(st),
        no_newline(t),
        t.len() > 0,
        t.last() != '{' && t.last() != '}',
    ensures
        consistent(emit_line(st, t)),
        same_marks(st, emit_line(st, t)),
{
    lemma_emit(st, t);
    let b = st.body + t;
    assert(b.last() == t.last());
    lemma_count_newline(b, '{');
    lemma_count_newline(b, '}');
}

proof fn lemma_open_line(st: PState, t: Seq<char>)
    requires
        consistent(st),
        no_newline(t),
        t.len() > 0,
        t.last() == '{',
    ensures
        consistent(open_line(st, t)),
        open_line(st, t).opened == st.opened + 1,
        open_line(st, t).closed == st.closed,
{
    lemma_emit(st, t);
    let b = st.body + t;
    assert(b.last() == t.last());
    lemma_count_newline(b, '{');
    lemma_count_newline(b, '}');
}

proof fn lemma_close_line(st: PState)
    requires
        consistent(st),
    ensures
        consistent(close_line(st)),
        close_line(st).opened == st.opened,
        close_line(st).closed == st.closed + 1,
{
    lemma_fragments();
    lemma_emit(st, "}"@);
    let b = st.body + "}"@;
    assert(b.last() == '}');
    lemma_count_newline(b, '{');
    lemma_count_newline(b, '}');
}

proof fn lemma_header_line(st: PState, t: Seq<char>)
    requires
        consistent(st),
        no_newline(t),
        t.len() > 0,
        t.last() != '{' && t.last() != '}',
    ensures
        consistent(header_line(st, t)),
        same_marks(st, header_line(st, t)),
{
    lemma_count_plain(st.header, t, '{');
    lemma_count_plain(st.header, t, '}');
    let h = st.header + t;
    assert(h.last() == t.last());
    lemma_count_newline(h, '{');
    lemma_count_newline(h, '}');
    reveal_strlit("\n");
    assert((h + "\n"@).last() == '\n');
}

proof fn lemma_advance(s: Seq<char>, st: PState)
    requires
        consistent(st),
    ensures
        advance(s, st) matches Ok(s2) ==> consistent(s2) && same_marks(st, s2),
{
    lemma_scan_text(s, st.pos);
    lemma_scan_progress(s, st.pos);
}

proof fn lemma_expect(s: Seq<char>, st: PState, k: TokenType)
    requires
        consistent(st),
    ensures
        expect(s, st, k) matches Ok(s2) ==> consistent(s2) && same_marks(st, s2),
{
    lemma_advance(s, st);
}

proof fn lemma_skip_newlines_marks(s: Seq<char>, st: PState)
    requires
        consistent(st),
    ensures
        skip_newlines(s, st) matches Ok(s2) ==> consistent(s2) && same_marks(st, s2),
    decreases measure(s, st),
{
    if st.cur.1 == TokenType::NEWLINE {
        lemma_advance(s, st);
        if let Ok(s1) = advance(s, st) {
            if measure(s, s1) < measure(s, st) {
                lemma_skip_newlines_marks(s, s1);
            }
        }
    }
}

proof fn lemma_nl_marks(s: Seq<char>, st: PState)
    requires
        consistent(st),
    ensures
        nl(s, st) matches Ok(s2) ==> consistent(s2) && same_marks(st, s2),
{
    lemma_expect(s, st, TokenType::NEWLINE);
    if let Ok(s1) = expect(s, st, TokenType::NEWLINE) {
        lemma_skip_newlines_marks(s, s1);
    }
}

/// Emits the current token's text, then advances.
proof fn lemma_emit_current(s: Seq<char>, st: PState)
    requires
        consistent(st),
        st.cur.1 != TokenType::NEWLINE,
    ensures
        advance(s, emit(st, st.cur.0)) matches Ok(s2) ==> consistent(s2) && same_marks(st, s2),
{
    lemma_emit(st, st.cur.0);
    lemma_advance(s, emit(st, st.cur.0));
}

proof fn lemma_primary_marks(s: Seq<char>, st: PState)
    requires
        consistent(st),
    ensures
        primary(s, st) matches Ok(s2) ==> consistent(s2) && same_marks(st, s2),
{
    if st.cur.1 == TokenType::NUMBER || st.cur.1 == TokenType::IDENT {
        lemma_emit_current(s, st);
    }
}

proof fn lemma_unary_marks(s: Seq<char>, st: PState)
    requires
        consistent(st),
    ensures
        unary(s, st) matches Ok(s2) ==> consistent(s2) && same_marks(st, s2),
{
    if is_sign(st.cur.1) {
        lemma_emit_current(s, st);
        if let Ok(s1) = advance(s, emit(st, st.cur.0)) {
            lemma_primary_marks(s, s1);
        }
    } else {
        lemma_primary_marks(s, st);
    }
}

proof fn lemma_term_rest_marks(s: Seq<char>, st: PState)
    requires
        consistent(st),
    ensures
        term_rest(s, st) matches Ok(s2) ==> consistent(s2) && same_marks(st, s2),
    decreases measure(s, st),
{
    if is_factor_op(st.cur.1) {
        lemma_emit_current(s, st);
        if let Ok(s1) = advance(s, emit(st, st.cur.0)) {
            lemma_unary_marks(s, s1);
            if let Ok(s2) = unary(s, s1) {
                if measure(s, s2) < measure(s, st) {
                    lemma_term_rest_marks(s, s2);
                }
            }
        }
    }
}

proof fn lemma_term_marks(s: Seq<char>, st: PState)
    requires
        consistent(st),
    ensures
        term(s, st) matches Ok(s2) ==> consistent(s2) && same_marks(st, s2),
{
    lemma_unary_marks(s, st);
    if let Ok(s1) = unary(s, st) {
        lemma_term_rest_marks(s, s1);
    }
}

proof fn lemma_expression_rest_marks(s: Seq<char>, st: PState)
    requires
        consistent(st),
    ensures
        expression_rest(s, st) matches Ok(s2) ==> consistent(s2) && same_marks(st, s2),
    decreases measure(s, st),
{
    if is_sign(st.cur.1) {
        lemma_emit_current(s, st);
        if let Ok(s1) = advance(s, emit(st, st.cur.0)) {
            lemma_term_marks(s, s1);
            if let Ok(s2) = term(s, s1) {
                if measure(s, s2) < measure(s, st) {
                    lemma_expression_rest_marks(s, s2);
                }
            }
        }
    }
}

proof fn lemma_expression_marks(s: Seq<char>, st: PState)
    requires
        consistent(st),
    ensures
        expression(s, st) matches Ok(s2) ==> consistent(s2) && same_marks(st, s2),
{
    lemma_term_marks(s, st);
    if let Ok(s1) = term(s, st) {
        lemma_expression_rest_marks(s, s1);
    }
}

proof fn lemma_comparison_rest_marks(s: Seq<char>, st: PState)
    requires
        consistent(st),
    ensures
        comparison_rest(s, st) matches Ok(s2) ==> consistent(s2) && same_marks(st, s2),
    decreases measure(s, st),
{
    if is_comparison_op(st.cur.1) {
        lemma_emit_current(s, st);
        if let Ok(s1) = advance(s, emit(st, st.cur.0)) {
            lemma_expression_marks(s, s1);
            if let Ok(s2) = expression(s, s1) {
                if measure(s, s2) < measure(s, st) {
                    lemma_comparison_rest_marks(s, s2);
                }
            }
        }
    }
}

proof fn lemma_comparison_marks(s: Seq<char>, st: PState)
    requires
        consistent(st),
    ensures
        comparison(s, st) matches Ok(s2) ==> consistent(s2) && same_marks(st, s2),
{
    lemma_fragments();
    let s0 = emit(st, "("@);
    lemma_emit(st, "("@);
    lemma_expression_marks(s, s0);
    if let Ok(s1) = expression(s, s0) {
        if is_comparison_op(s1.cur.1) {
            lemma_emit_current(s, s1);
            if let Ok(s2) = advance(s, emit(s1, s1.cur.0)) {
                lemma_expression_marks(s, s2);
                if let Ok(s3) = expression(s, s2) {
                    lemma_comparison_rest_marks(s, s3);
                    if let Ok(s4) = comparison_rest(s, s3) {
                        lemma_emit(s4, ")"@);
                    }
                }
            }
        }
    }
}

proof fn lemma_declare(st: PState, name: Seq<char>)
    requires
        consistent(st),
        no_newline(name),
    ensures
        consistent(declare(st, name)),
        same_marks(st, declare(st, name)),
        declare(st, name).body == st.body,
        declare(st, name).cur == st.cur,
{
    lemma_fragments();
    if !st.symbols.contains(name) {
        let d = "float "@ + name + ";"@;
        lemma_plain_concat("float "@, name);
        lemma_plain_concat("float "@ + name, ";"@);
        assert(d.last() == ';');
        lemma_header_line(PState { symbols: st.symbols.insert(name), ..st }, d);
    }
}

proof fn lemma_print_marks(s: Seq<char>, st: PState)
    requires
        consistent(st),
    ensures
        print_rest(s, st) matches Ok(s2) ==> consistent(s2) && same_marks(st, s2),
{
    lemma_fragments();
    if st.cur.1 == TokenType::STRING {
        lemma_literal_body(st.cur.0);
        let a = emit(st, "printf(\""@);
        lemma_emit(st, "printf(\""@);
        let b = emit(a, literal_body(st.cur.0));
        lemma_emit(a, literal_body(st.cur.0));
        lemma_plain_line(b, "\\n\");"@);
        lemma_advance(s, emit_line(b, "\\n\");"@));
    } else {
        let a = emit(st, "printf(\"%.2f\\n\", (float)("@);
        lemma_emit(st, "printf(\"%.2f\\n\", (float)("@);
        lemma_expression_marks(s, a);
        if let Ok(s1) = expression(s, a) {
            lemma_plain_line(s1, "));"@);
        }
    }
}

proof fn lemma_label_marks(s: Seq<char>, st: PState)
    requires
        consistent(st),
    ensures
        label_rest(s, st) matches Ok(s2) ==> consistent(s2) && same_marks(st, s2),
{
    lemma_fragments();
    let name = st.cur.0;
    if !st.declared.contains(name) && st.cur.1 == TokenType::IDENT {
        let s1 = PState { declared: st.declared.insert(name), ..st };
        lemma_emit(s1, name);
        lemma_plain_line(emit(s1, name), ":"@);
        lemma_expect(s, emit_line(emit(s1, name), ":"@), TokenType::IDENT);
    }
}

proof fn lemma_goto_marks(s: Seq<char>, st: PState)
    requires
        consistent(st),
    ensures
        goto_rest(s, st) matches Ok(s2) ==> consistent(s2) && same_marks(st, s2),
{
    lemma_fragments();
    let name = st.cur.0;
    if st.cur.1 == TokenType::IDENT {
        let g = if st.gotoed.contains(name) {
            st.gotoed
        } else {
            st.gotoed.push(name)
        };
        let s1 = PState { gotoed: g, ..st };
        lemma_emit(s1, "goto "@);
        lemma_emit(emit(s1, "goto "@), name);
        lemma_plain_line(emit(emit(s1, "goto "@), name), ";"@);
        lemma_expect(s, emit_line(emit(emit(s1, "goto "@), name), ";"@), TokenType::IDENT);
    }
}

proof fn lemma_let_marks(s: Seq<char>, st: PState)
    requires
        consistent(st),
    ensures
        let_rest(s, st) matches Ok(s2) ==> consistent(s2) && same_marks(st, s2),
{
    lemma_fragments();
    let name = st.cur.0;
    if st.cur.1 == TokenType::IDENT {
        lemma_declare(st, name);
        let d = declare(st, name);
        lemma_emit(d, name);
        lemma_emit(emit(d, name), " = "@);
        let s1 = emit(emit(d, name), " = "@);
        lemma_expect(s, s1, TokenType::IDENT);
        if let Ok(s2) = expect(s, s1, TokenType::IDENT) {
            lemma_expect(s, s2, TokenType::EQ);
            if let Ok(s3) = expect(s, s2, TokenType::EQ) {
                lemma_expression_marks(s, s3);
                if let Ok(s4) = expression(s, s3) {
                    lemma_plain_line(s4, ";"@);
                }
            }
        }
    }
}

proof fn lemma_input_marks(s: Seq<char>, st: PState)
    requires
        consistent(st),
    ensures
        input_rest(s, st) matches Ok(s2) ==> consistent(s2) && s2.opened == st.opened + 1
            && s2.closed == st.closed + 1,
{
    lemma_fragments();
    let name = st.cur.0;
    if st.cur.1 == TokenType::IDENT {
        lemma_declare(st, name);
        let d = declare(st, name);
        let a = emit(d, "if(0 == scanf(\"%f\", &"@);
        lemma_emit(d, "if(0 == scanf(\"%f\", &"@);
        lemma_emit(a, name);
        let s1 = open_line(emit(a, name), ")) {"@);
        lemma_open_line(emit(a, name), ")) {"@);
        lemma_emit(s1, name);
        let s2 = emit_line(emit(s1, name), " = 0;"@);
        lemma_plain_line(emit(s1, name), " = 0;"@);
        lemma_emit(s2, "scanf(\"%"@);
        lemma_plain_line(emit(s2, "scanf(\"%"@), "*s\");"@);
        let c = emit_line(emit(s2, "scanf(\"%"@), "*s\");"@);
        lemma_close_line(c);
        lemma_expect(s, close_line(c), TokenType::IDENT);
    }
}

/// A successful step keeps the state consistent and adds as many block-open
/// as block-close markers.
pub open spec fn balanced_step(st: PState, r: Step) -> bool {
    r matches Ok(s2) ==> consistent(s2) && s2.opened - st.opened == s2.closed - st.closed
}

proof fn lemma_block_stmt_balance(
    s: Seq<char>,
    st: PState,
    opener: Seq<char>,
    mid: TokenType,
    end: TokenType,
)
    requires
        consistent(st),
        no_newline(opener),
    ensures
        balanced_step(st, block_stmt(s, st, opener, mid, end)),
    decreases measure(s, st), 2nat,
{
    lemma_fragments();
    lemma_emit(st, opener);
    lemma_comparison_marks(s, emit(st, opener));
    if let Ok(s1) = comparison(s, emit(st, opener)) {
        lemma_expect(s, s1, mid);
        if let Ok(s2) = expect(s, s1, mid) {
            lemma_nl_marks(s, s2);
            if let Ok(s3) = nl(s, s2) {
                if measure(s, s3) <= measure(s, st) {
                    lemma_open_line(s3, "){"@);
                    lemma_block_balance(s, open_line(s3, "){"@), end);
                    if let Ok(s4) = block(s, open_line(s3, "){"@), end) {
                        lemma_expect(s, s4, end);
                        if let Ok(s5) = expect(s, s4, end) {
                            lemma_close_line(s5);
                        }
                    }
                }
            }
        }
    }
}

proof fn lemma_statement_balance(s: Seq<char>, st: PState)
    requires
        consistent(st),
    ensures
        balanced_step(st, statement(s, st)),
    decreases measure(s, st), 0nat,
{
    lemma_fragments();
    let k = st.cur.1;
    lemma_advance(s, st);
    if let Ok(s1) = advance(s, st) {
        let r = if k == TokenType::PRINT {
            print_rest(s, s1)
        } else if k == TokenType::IF {
            if measure(s, s1) < measure(s, st) {
                block_stmt(s, s1, "if("@, TokenType::THEN, TokenType::ENDIF)
            } else {
                Ok(s1)
            }
        } else if k == TokenType::WHILE {
            if measure(s, s1) < measure(s, st) {
                block_stmt(s, s1, "while("@, TokenType::REPEAT, TokenType::ENDWHILE)
            } else {
                Ok(s1)
            }
        } else if k == TokenType::LABEL {
            label_rest(s, s1)
        } else if k == TokenType::GOTO {
            goto_rest(s, s1)
        } else if k == TokenType::LET {
            let_rest(s, s1)
        } else {
            input_rest(s, s1)
        };
        if k == TokenType::PRINT {
            lemma_print_marks(s, s1);
        } else if k == TokenType::IF {
            if measure(s, s1) < measure(s, st) {
                lemma_block_stmt_balance(s, s1, "if("@, TokenType::THEN, TokenType::ENDIF);
            }
        } else if k == TokenType::WHILE {
            if measure(s, s1) < measure(s, st) {
                lemma_block_stmt_balance(s, s1, "while("@, TokenType::REPEAT, TokenType::ENDWHILE);
            }
        } else if k == TokenType::LABEL {
            lemma_label_marks(s, s1);
        } else if k == TokenType::GOTO {
            lemma_goto_marks(s, s1);
        } else if k == TokenType::LET {
            lemma_let_marks(s, s1);
        } else {
            lemma_input_marks(s, s1);
        }
        if let Ok(s2) = r {
            lemma_nl_marks(s, s2);
        }
    }
}

proof fn lemma_block_balance(s: Seq<char>, st: PState, end: TokenType)
    requires
        consistent(st),
    ensures
        balanced_step(st, block(s, st, end)),
    decreases measure(s, st), 1nat,
{
    if st.cur.1 != end {
        lemma_statement_balance(s, st);
        if let Ok(s1) = statement(s, st) {
            if measure(s, s1) < measure(s, st) {
                lemma_block_balance(s, s1, end);
            }
        }
    }
}

/// Braces balance: the artifact of every successful translation has as many
/// lines that open a block (ending with `{`: the entry point, each IF and
/// WHILE guard, each guarded read) as lines that close one (ending with `}`),
/// and these are exactly the block markers that the translator emitted.
pub proof fn lemma_blocks_balance(input: Seq<char>)
    ensures
        translated(input) matches Ok(st) ==> st.opened == st.closed && marker_count(
            st.header + st.body,
            '{',
        ) == st.opened && marker_count(st.header + st.body, '}') == st.closed,
{
    lemma_fragments();
    let s = source_of(input);
    let s00 = initial(0, Seq::empty(), Seq::empty());
    assert(no_newline(Seq::<char>::empty()));
    assert(consistent(s00));
    lemma_advance(s, s00);
    if let Ok(a) = advance(s, s00) {
        lemma_advance(s, a);
    }
    if let Ok(s1) = prime(s, s00) {
        let h1 = header_line(s1, "#include <stdio.h>"@);
        lemma_header_line(s1, "#include <stdio.h>"@);
        lemma_count_plain(h1.header, "int main(void){"@, '{');
        lemma_count_plain(h1.header, "int main(void){"@, '}');
        let hh = h1.header + "int main(void){"@;
        assert(hh.last() == '{');
        lemma_count_newline(hh, '{');
        lemma_count_newline(hh, '}');
        reveal_strlit("\n");
        assert((hh + "\n"@).last() == '\n');
        let s0 = opening(s1);
        assert(consistent(s0));
        lemma_skip_newlines_marks(s, s0);
        if let Ok(b) = skip_newlines(s, s0) {
            lemma_block_balance(s, b, TokenType::EOF);
            if let Ok(s2) = block(s, b, TokenType::EOF) {
                lemma_plain_line(s2, "return 0;"@);
                let s3 = emit_line(s2, "return 0;"@);
                lemma_close_line(s3);
                let f = close_line(s3);
                lemma_count_concat(f.header, f.body, '{');
                lemma_count_concat(f.header, f.body, '}');
            }
        }
    }
}

/// Define-before-use: an expression that reads a variable no LET or INPUT has
/// assigned so far aborts the translation with `UndefinedVariable`.
pub proof fn lemma_read_before_assignment(s: Seq<char>, st: PState)
    requires
        st.cur.1 == TokenType::IDENT,
        !st.symbols.contains(st.cur.0),
    ensures
        expression(s, st) == Err::<PState, ErrorView>(ErrorView::UndefinedVariable(st.cur.0)),
        comparison(s, st) == Err::<PState, ErrorView>(ErrorView::UndefinedVariable(st.cur.0)),
{
}

/// Every variable that an expression reads has been assigned: a primary that
/// reads an identifier succeeds only if the identifier is an assigned variable.
pub proof fn lemma_read_needs_assignment(s: Seq<char>, st: PState)
    requires
        st.cur.1 == TokenType::IDENT,
    ensures
        primary(s, st) is Ok ==> st.symbols.contains(st.cur.0),
        !st.symbols.contains(st.cur.0) ==> primary(s, st) == Err::<PState, ErrorView>(
            ErrorView::UndefinedVariable(st.cur.0),
        ),
{
}

proof fn lemma_first_missing(names: Seq<Seq<char>>, declared: Set<Seq<char>>)
    ensures
        first_missing(names, declared) is None <==> (forall|n: Seq<char>|
            names.contains(n) ==> declared.contains(n)),
        first_missing(names, declared) matches Some(n) ==> names.contains(n) && !declared.contains(
            n,
        ),
    decreases names.len(),
{
    if names.len() > 0 {
        lemma_first_missing(names.drop_first(), declared);
        if declared.contains(names[0]) {
            assert forall|n: Seq<char>| names.contains(n) && n != names[0] implies names.drop_first().contains(n) by {
                let i = choose|i: int| 0 <= i < names.len() && names[i] == n;
                assert(names.drop_first()[i - 1] == n);
            }
            assert forall|n: Seq<char>| names.drop_first().contains(n) implies names.contains(n) by {
                let i = choose|i: int| 0 <= i < names.drop_first().len() && names.drop_first()[i] == n;
                assert(names[i + 1] == n);
            }
        } else {
            assert(names.contains(names[0]));
        }
    }
}

/// GOTO targets are checked once, after the last statement: when every
/// statement has been translated (leaving state `done`), the translation
/// succeeds exactly when every referenced label is declared somewhere in the
/// program, before or after the GOTO; otherwise it fails naming a referenced
/// label that no LABEL declares.
pub proof fn lemma_goto_targets(s: Seq<char>, st: PState, done: PState)
    requires
        skip_newlines(s, opening(st)) matches Ok(s1) && block(s, s1, TokenType::EOF) == Ok::<
            PState,
            ErrorView,
        >(done),
    ensures
        program(s, st) is Ok <==> (forall|n: Seq<char>|
            done.gotoed.contains(n) ==> done.declared.contains(n)),
        program(s, st) matches Err(e) ==> (e matches ErrorView::UndeclaredLabel(n)
            && done.gotoed.contains(n) && !done.declared.contains(n)),
{
    lemma_first_missing(done.gotoed, done.declared);
}

} // verus!
