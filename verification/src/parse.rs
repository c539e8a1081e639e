//! The parser: recursive descent over the token sequence with one
//! token of lookahead, and precedence climbing for expressions. All
//! operators are left-associative; there are no unary operators or
//! grouping parentheses.
//!
//! `parse_prog_spec` is the mathematical statement of the whole pass;
//! `parse` is proved to return exactly what it says.

use vstd::prelude::*;
use vstd::string::StringExecFns;

use crate::err::ParseError;
use crate::eval::Assign;
use crate::eval::BinOp;
use crate::eval::Expr;
use crate::eval::ExprV;
use crate::eval::For;
use crate::eval::If;
use crate::eval::Input;
use crate::eval::Output;
use crate::eval::Stmt;
use crate::eval::StmtV;
use crate::eval::Until;
use crate::eval::While;
use crate::eval::branches_view;
use crate::eval::lemma_branches_view;
use crate::eval::lemma_stmts_view;
use crate::eval::stmts_view;
use crate::lex::Keyword;
use crate::lex::LexerToken;
use crate::lex::Punctuation;
use crate::lex::TokView;
use crate::lex::precedence_of;
use crate::lex::toks_view;

verus! {

/// The next index after a sub-parse, held to the valid range so that
/// the recursion is visibly finite; every proved parse lands inside
/// the range, where this is the identity.
pub open spec fn next_idx(i: int, j: int, len: int) -> int {
    if i < j <= len {
        j
    } else if i + 1 <= len {
        i + 1
    } else {
        len
    }
}

// ---------------------------------------------------------------------
// Expression grammar
// ---------------------------------------------------------------------

/// The atom at `i`: a literal or an identifier; nothing else can open
/// an expression.
pub open spec fn parse_atom_spec(toks: Seq<TokView>, i: int) -> Result<(ExprV, int), Seq<char>> {
    if 0 <= i < toks.len() {
        match toks[i] {
            TokView::IntLit(x) => Ok((ExprV::IntLit(x), i + 1)),
            TokView::FloatLit(s) => Ok((ExprV::FloatLit(s), i + 1)),
            TokView::BoolLit(b) => Ok((ExprV::BoolLit(b), i + 1)),
            TokView::StrLit(s) => Ok((ExprV::StrLit(s), i + 1)),
            TokView::Identifier(s) => Ok((ExprV::Ident(s), i + 1)),
            _ => Err("Failed to parse atom"@),
        }
    } else {
        Err("Failed to parse atom"@)
    }
}

/// Precedence climbing from an already-parsed left operand: while the
/// next token is a non-assignment operator binding at least as
/// tightly as `minprec`, take it, parse its right side at one level
/// tighter, and fold to the left.
pub open spec fn parse_bin_op_spec(toks: Seq<TokView>, i: int, left: ExprV, minprec: u32) -> Result<
    (ExprV, int),
    Seq<char>,
>
    decreases toks.len() - i, 1int,
{
    if 0 <= i < toks.len() && (toks[i] matches TokView::Punctuation(op) && op != Punctuation::Assign
        && precedence_of(op) >= minprec) {
        let op = toks[i]->Punctuation_0;
        match parse_atom_spec(toks, i + 1) {
            Err(m) => Err(m),
            Ok((rhs, j0)) => {
                let j = next_idx(i, j0, toks.len() as int);
                match parse_bin_op_spec(toks, j, rhs, (precedence_of(op) + 1) as u32) {
                    Err(m) => Err(m),
                    Ok((right, k0)) => {
                        let k = if j <= k0 <= toks.len() {
                            k0
                        } else {
                            j
                        };
                        parse_bin_op_spec(
                            toks,
                            k,
                            ExprV::BinOp(op, Box::new(left), Box::new(right)),
                            minprec,
                        )
                    },
                }
            },
        }
    } else {
        Ok((left, i))
    }
}

/// A whole expression starting at `i`: an atom, then operator folding
/// from the loosest precedence.
pub open spec fn parse_expr_spec(toks: Seq<TokView>, i: int) -> Result<(ExprV, int), Seq<char>> {
    match parse_atom_spec(toks, i) {
        Err(m) => Err(m),
        Ok((left, j)) => parse_bin_op_spec(toks, next_idx(i, j, toks.len() as int), left, 0),
    }
}

// ---------------------------------------------------------------------
// Statement grammar
// ---------------------------------------------------------------------

/// The statement starting at `i`. Assignments, `INPUT`, `OUTPUT`,
/// conditionals and the three loop forms; anything else is a
/// structural error.
pub open spec fn parse_stmt_spec(toks: Seq<TokView>, i: int) -> Result<(StmtV, int), Seq<char>>
    decreases toks.len() - i, 5int,
{
    if i < 0 || i >= toks.len() {
        Err("Failed to parse stmt"@)
    } else {
        match toks[i] {
            TokView::Identifier(name) => {
                if i + 1 < toks.len() && toks[i + 1] == TokView::Punctuation(Punctuation::Assign) {
                    match parse_expr_spec(toks, i + 2) {
                        Err(m) => Err(m),
                        Ok((e, j)) => Ok((StmtV::Assign(name, e), j)),
                    }
                } else {
                    Err("Failed to parse stmt"@)
                }
            },
            TokView::Keyword(Keyword::Input) => {
                if i + 1 < toks.len() && (toks[i + 1] matches TokView::Identifier(name)) {
                    Ok((StmtV::Input(toks[i + 1]->Identifier_0), i + 2))
                } else {
                    Err("Failed to parse input stmt"@)
                }
            },
            TokView::Keyword(Keyword::Output) => {
                match parse_expr_spec(toks, i + 1) {
                    Err(m) => Err(m),
                    Ok((e, j)) => Ok((StmtV::Output(e), j)),
                }
            },
            TokView::Keyword(Keyword::If) => {
                match parse_expr_spec(toks, i + 1) {
                    Err(m) => Err(m),
                    Ok((cond, j0)) => {
                        let j = next_idx(i, j0, toks.len() as int);
                        if j < toks.len() && toks[j] == TokView::Keyword(Keyword::Then) {
                            match parse_if_tail_spec(toks, j + 1, cond) {
                                Err(m) => Err(m),
                                Ok((bs, k)) => Ok((StmtV::If(bs), k)),
                            }
                        } else {
                            Err("Failed to parse if stmt"@)
                        }
                    },
                }
            },
            TokView::Keyword(Keyword::Loop) => {
                if i + 1 < toks.len() && toks[i + 1] == TokView::Keyword(Keyword::While) {
                    match parse_expr_spec(toks, i + 2) {
                        Err(m) => Err(m),
                        Ok((cond, j0)) => {
                            let j = next_idx(i + 1, j0, toks.len() as int);
                            match parse_stmts_until_end_spec(toks, j) {
                                Err(m) => Err(m),
                                Ok((body, k)) => {
                                    if k + 1 < toks.len() && toks[k + 1] == TokView::Keyword(
                                        Keyword::Loop,
                                    ) {
                                        Ok((StmtV::While(cond, body), k + 2))
                                    } else {
                                        Err("Failed to parse while stmt"@)
                                    }
                                },
                            }
                        },
                    }
                } else if i + 1 < toks.len() && toks[i + 1] == TokView::Keyword(Keyword::Until) {
                    match parse_expr_spec(toks, i + 2) {
                        Err(m) => Err(m),
                        Ok((cond, j0)) => {
                            let j = next_idx(i + 1, j0, toks.len() as int);
                            match parse_stmts_until_end_spec(toks, j) {
                                Err(m) => Err(m),
                                Ok((body, k)) => {
                                    if k + 1 < toks.len() && toks[k + 1] == TokView::Keyword(
                                        Keyword::Loop,
                                    ) {
                                        Ok((StmtV::Until(cond, body), k + 2))
                                    } else {
                                        Err("Failed to parse while stmt"@)
                                    }
                                },
                            }
                        },
                    }
                } else if i + 1 < toks.len() && (toks[i + 1] matches TokView::Identifier(name)) {
                    let name = toks[i + 1]->Identifier_0;
                    if i + 2 < toks.len() && toks[i + 2] == TokView::Keyword(Keyword::From) {
                        match parse_expr_spec(toks, i + 3) {
                            Err(m) => Err(m),
                            Ok((start, j0)) => {
                                let j = next_idx(i + 2, j0, toks.len() as int);
                                if j < toks.len() && toks[j] == TokView::Keyword(Keyword::To) {
                                    match parse_expr_spec(toks, j + 1) {
                                        Err(m) => Err(m),
                                        Ok((end, k0)) => {
                                            let k = next_idx(j, k0, toks.len() as int);
                                            match parse_stmts_until_end_spec(toks, k) {
                                                Err(m) => Err(m),
                                                Ok((body, m0)) => {
                                                    if m0 + 1 < toks.len() && toks[m0 + 1]
                                                        == TokView::Keyword(Keyword::Loop) {
                                                        Ok(
                                                            (
                                                                StmtV::For(name, start, end, body),
                                                                m0 + 2,
                                                            ),
                                                        )
                                                    } else {
                                                        Err("Failed to parse stmt"@)
                                                    }
                                                },
                                            }
                                        },
                                    }
                                } else {
                                    Err("Failed to parse 'to' in for stmt"@)
                                }
                            },
                        }
                    } else {
                        Err("Failed to parse 'from' in for stmt"@)
                    }
                } else {
                    Err("Failed to parse loop stmt"@)
                }
            },
            _ => Err("Failed to parse stmt"@),
        }
    }
}

/// Statements up to (excluding) the `END` that closes a loop body; the
/// index returned points at that `END`.
pub open spec fn parse_stmts_until_end_spec(toks: Seq<TokView>, i: int) -> Result<
    (Seq<StmtV>, int),
    Seq<char>,
>
    decreases toks.len() - i, 6int,
{
    if i < 0 || i >= toks.len() {
        Err("Failed to parse stmt"@)
    } else if toks[i] == TokView::Keyword(Keyword::End) {
        Ok((Seq::empty(), i))
    } else {
        match parse_stmt_spec(toks, i) {
            Err(m) => Err(m),
            Ok((s, j0)) => {
                let j = next_idx(i, j0, toks.len() as int);
                match parse_stmts_until_end_spec(toks, j) {
                    Err(m) => Err(m),
                    Ok((rest, k)) => Ok((seq![s] + rest, k)),
                }
            },
        }
    }
}

/// From just after a branch's `THEN` (or `ELSE`): the branch's body,
/// then either further `ELSE` branches or the closing `END IF`. Yields
/// the branch for `cond` followed by the branches still to come.
pub open spec fn parse_if_tail_spec(toks: Seq<TokView>, i: int, cond: ExprV) -> Result<
    (Seq<(ExprV, Seq<StmtV>)>, int),
    Seq<char>,
>
    decreases toks.len() - i, 7int,
{
    match parse_branch_stmts_spec(toks, i) {
        Err(m) => Err(m),
        Ok((ss, j0)) => {
            let j = if i <= j0 <= toks.len() {
                j0
            } else {
                i
            };
            if j < toks.len() && toks[j] == TokView::Keyword(Keyword::End) {
                if j + 1 < toks.len() && toks[j + 1] == TokView::Keyword(Keyword::If) {
                    Ok((seq![(cond, ss)], j + 2))
                } else {
                    Err("Failed to parse if stmt"@)
                }
            } else if j < toks.len() && toks[j] == TokView::Keyword(Keyword::Else) {
                if j + 1 < toks.len() && toks[j + 1] == TokView::Keyword(Keyword::If) {
                    match parse_expr_spec(toks, j + 2) {
                        Err(m) => Err(m),
                        Ok((cond2, k0)) => {
                            let k = next_idx(j + 1, k0, toks.len() as int);
                            if k < toks.len() && toks[k] == TokView::Keyword(Keyword::Then) {
                                match parse_if_tail_spec(toks, k + 1, cond2) {
                                    Err(m) => Err(m),
                                    Ok((bs, m0)) => Ok((seq![(cond, ss)] + bs, m0)),
                                }
                            } else {
                                Err("Failed to parse if stmt"@)
                            }
                        },
                    }
                } else {
                    match parse_if_tail_spec(toks, j + 1, ExprV::BoolLit(true)) {
                        Err(m) => Err(m),
                        Ok((bs, m0)) => Ok((seq![(cond, ss)] + bs, m0)),
                    }
                }
            } else {
                Err("Failed to parse stmt"@)
            }
        },
    }
}

/// Statements up to (excluding) the next `ELSE` or `END`; the index
/// returned points at that keyword.
pub open spec fn parse_branch_stmts_spec(toks: Seq<TokView>, i: int) -> Result<
    (Seq<StmtV>, int),
    Seq<char>,
>
    decreases toks.len() - i, 6int,
{
    if i < 0 || i >= toks.len() {
        Err("Failed to parse stmt"@)
    } else if toks[i] == TokView::Keyword(Keyword::End) || toks[i] == TokView::Keyword(
        Keyword::Else,
    ) {
        Ok((Seq::empty(), i))
    } else {
        match parse_stmt_spec(toks, i) {
            Err(m) => Err(m),
            Ok((s, j0)) => {
                let j = next_idx(i, j0, toks.len() as int);
                match parse_branch_stmts_spec(toks, j) {
                    Err(m) => Err(m),
                    Ok((rest, k)) => Ok((seq![s] + rest, k)),
                }
            },
        }
    }
}

/// The whole program from index `i`: top-level statements until the
/// tokens run out.
pub open spec fn parse_prog_spec(toks: Seq<TokView>, i: int) -> Result<Seq<StmtV>, Seq<char>>
    decreases toks.len() - i, 8int,
{
    if i < 0 || i >= toks.len() {
        Ok(Seq::empty())
    } else {
        match parse_stmt_spec(toks, i) {
            Err(m) => Err(m),
            Ok((s, j0)) => {
                let j = next_idx(i, j0, toks.len() as int);
                match parse_prog_spec(toks, j) {
                    Err(m) => Err(m),
                    Ok(rest) => Ok(seq![s] + rest),
                }
            },
        }
    }
}

// ---------------------------------------------------------------------
// The executable parser
// ---------------------------------------------------------------------

fn stmt_err() -> (r: ParseError)
    ensures
        r.msg@ == "Failed to parse stmt"@,
{
    ParseError::new(String::from_str("Failed to parse stmt"))
}

fn if_err() -> (r: ParseError)
    ensures
        r.msg@ == "Failed to parse if stmt"@,
{
    ParseError::new(String::from_str("Failed to parse if stmt"))
}

fn parse_atom(tokens: &Vec<LexerToken>, i: usize) -> (r: Result<(Expr, usize), ParseError>)
    ensures
        match parse_atom_spec(toks_view(tokens@), i as int) {
            Ok((ev, j)) => r matches Ok(p) && p.0@ == ev && p.1 == j && i < p.1 <= tokens@.len(),
            Err(m) => r matches Err(e) && e.msg@ == m,
        },
{
    proof {
        if (i as int) < tokens@.len() {
            assert(toks_view(tokens@)[i as int] == tokens@[i as int]@);
        }
    }
    if i >= tokens.len() {
        return Err(ParseError::new(String::from_str("Failed to parse atom")));
    }
    match &tokens[i] {
        LexerToken::IntLit(x) => Ok((Expr::IntLit(*x), i + 1)),
        LexerToken::FloatLit(s) => Ok((Expr::FloatLit(s.clone()), i + 1)),
        LexerToken::BoolLit(b) => Ok((Expr::BoolLit(*b), i + 1)),
        LexerToken::StrLit(s) => Ok((Expr::StrLit(s.clone()), i + 1)),
        LexerToken::Identifier(s) => Ok((Expr::Ident(s.clone()), i + 1)),
        _ => Err(ParseError::new(String::from_str("Failed to parse atom"))),
    }
}

fn parse_bin_op(tokens: &Vec<LexerToken>, i: usize, left: Expr, minprec: u32) -> (r: Result<
    (Expr, usize),
    ParseError,
>)
    requires
        i <= tokens@.len(),
    ensures
        match parse_bin_op_spec(toks_view(tokens@), i as int, left@, minprec) {
            Ok((ev, j)) => r matches Ok(p) && p.0@ == ev && p.1 == j && i <= p.1 <= tokens@.len(),
            Err(m) => r matches Err(e) && e.msg@ == m,
        },
    decreases tokens@.len() - i, 1int,
{
    proof {
        if (i as int) < tokens@.len() {
            assert(toks_view(tokens@)[i as int] == tokens@[i as int]@);
        }
    }
    if i < tokens.len() {
        let opt: Option<Punctuation> = match &tokens[i] {
            LexerToken::Punctuation(p) => Some(*p),
            _ => None,
        };
        if let Some(op) = opt {
            let is_assign = match op {
                Punctuation::Assign => true,
                _ => false,
            };
            if !is_assign && op.precedence() >= minprec {
                proof {
                    assert(precedence_of(op) <= 3);
                }
                return match parse_atom(tokens, i + 1) {
                    Err(e) => Err(e),
                    Ok((rhs, j)) => {
                        match parse_bin_op(tokens, j, rhs, op.precedence() + 1) {
                            Err(e) => Err(e),
                            Ok((right, k)) => {
                                let folded = Expr::BinOp(Box::new(BinOp { left, right, op }));
                                parse_bin_op(tokens, k, folded, minprec)
                            },
                        }
                    },
                };
            }
        }
    }
    Ok((left, i))
}

fn parse_expr(tokens: &Vec<LexerToken>, i: usize) -> (r: Result<(Expr, usize), ParseError>)
    ensures
        match parse_expr_spec(toks_view(tokens@), i as int) {
            Ok((ev, j)) => r matches Ok(p) && p.0@ == ev && p.1 == j && i < p.1 <= tokens@.len(),
            Err(m) => r matches Err(e) && e.msg@ == m,
        },
{
    match parse_atom(tokens, i) {
        Err(e) => Err(e),
        Ok((left, j)) => parse_bin_op(tokens, j, left, 0),
    }
}

fn parse_stmt(tokens: &Vec<LexerToken>, i: usize) -> (r: Result<(Stmt, usize), ParseError>)
    ensures
        match parse_stmt_spec(toks_view(tokens@), i as int) {
            Ok((sv, j)) => r matches Ok(p) && p.0@ == sv && p.1 == j && i < p.1 <= tokens@.len(),
            Err(m) => r matches Err(e) && e.msg@ == m,
        },
    decreases tokens@.len() - i, 5int,
{
    proof {
        if (i as int) < tokens@.len() {
            assert(toks_view(tokens@)[i as int] == tokens@[i as int]@);
        }
        if (i as int) + 1 < tokens@.len() {
            assert(toks_view(tokens@)[i as int + 1] == tokens@[i as int + 1]@);
        }
        if (i as int) + 2 < tokens@.len() {
            assert(toks_view(tokens@)[i as int + 2] == tokens@[i as int + 2]@);
        }
    }
    if i >= tokens.len() {
        return Err(stmt_err());
    }
    match &tokens[i] {
        LexerToken::Identifier(name) => {
            let is_assign = i + 1 < tokens.len() && match &tokens[i + 1] {
                LexerToken::Punctuation(Punctuation::Assign) => true,
                _ => false,
            };
            if is_assign {
                match parse_expr(tokens, i + 2) {
                    Err(e) => Err(e),
                    Ok((e, j)) => Ok((Stmt::Assign(Assign { ident: name.clone(), expr: e }), j)),
                }
            } else {
                Err(stmt_err())
            }
        },
        LexerToken::Keyword(Keyword::Input) => {
            if i + 1 < tokens.len() {
                match &tokens[i + 1] {
                    LexerToken::Identifier(name) => Ok(
                        (Stmt::Input(Input { ident: name.clone() }), i + 2),
                    ),
                    _ => Err(ParseError::new(String::from_str("Failed to parse input stmt"))),
                }
            } else {
                Err(ParseError::new(String::from_str("Failed to parse input stmt")))
            }
        },
        LexerToken::Keyword(Keyword::Output) => {
            match parse_expr(tokens, i + 1) {
                Err(e) => Err(e),
                Ok((e, j)) => Ok((Stmt::Output(Output { expr: e }), j)),
            }
        },
        LexerToken::Keyword(Keyword::If) => {
            match parse_expr(tokens, i + 1) {
                Err(e) => Err(e),
                Ok((cond, j)) => {
                    proof {
                        if (j as int) < tokens@.len() {
                            assert(toks_view(tokens@)[j as int] == tokens@[j as int]@);
                        }
                    }
                    let is_then = j < tokens.len() && match &tokens[j] {
                        LexerToken::Keyword(Keyword::Then) => true,
                        _ => false,
                    };
                    if is_then {
                        match parse_if_tail(tokens, j + 1, cond) {
                            Err(e) => Err(e),
                            Ok((bs, k)) => Ok((Stmt::If(If { branches: bs }), k)),
                        }
                    } else {
                        Err(if_err())
                    }
                },
            }
        },
        LexerToken::Keyword(Keyword::Loop) => {
            let after: u32 = if i + 1 < tokens.len() {
                match &tokens[i + 1] {
                    LexerToken::Keyword(Keyword::While) => 1,
                    LexerToken::Keyword(Keyword::Until) => 2,
                    LexerToken::Identifier(_) => 3,
                    _ => 0,
                }
            } else {
                0
            };
            if after == 1 || after == 2 {
                match parse_expr(tokens, i + 2) {
                    Err(e) => Err(e),
                    Ok((cond, j)) => {
                        match parse_stmts_until_end(tokens, j) {
                            Err(e) => Err(e),
                            Ok((body, k)) => {
                                proof {
                                    if (k as int) + 1 < tokens@.len() {
                                        assert(toks_view(tokens@)[k as int + 1] == tokens@[k as int
                                            + 1]@);
                                    }
                                }
                                let closed = k + 1 < tokens.len() && match &tokens[k + 1] {
                                    LexerToken::Keyword(Keyword::Loop) => true,
                                    _ => false,
                                };
                                if closed {
                                    if after == 1 {
                                        Ok((Stmt::While(While { cond, stmts: body }), k + 2))
                                    } else {
                                        Ok((Stmt::Until(Until { cond, stmts: body }), k + 2))
                                    }
                                } else {
                                    Err(
                                        ParseError::new(
                                            String::from_str("Failed to parse while stmt"),
                                        ),
                                    )
                                }
                            },
                        }
                    },
                }
            } else if after == 3 {
                let name = match &tokens[i + 1] {
                    LexerToken::Identifier(s) => s.clone(),
                    _ => String::new(),
                };
                let has_from = i + 2 < tokens.len() && match &tokens[i + 2] {
                    LexerToken::Keyword(Keyword::From) => true,
                    _ => false,
                };
                if has_from {
                    match parse_expr(tokens, i + 3) {
                        Err(e) => Err(e),
                        Ok((start, j)) => {
                            proof {
                                if (j as int) < tokens@.len() {
                                    assert(toks_view(tokens@)[j as int] == tokens@[j as int]@);
                                }
                            }
                            let has_to = j < tokens.len() && match &tokens[j] {
                                LexerToken::Keyword(Keyword::To) => true,
                                _ => false,
                            };
                            if has_to {
                                match parse_expr(tokens, j + 1) {
                                    Err(e) => Err(e),
                                    Ok((end, k)) => {
                                        match parse_stmts_until_end(tokens, k) {
                                            Err(e) => Err(e),
                                            Ok((body, m)) => {
                                                proof {
                                                    if (m as int) + 1 < tokens@.len() {
                                                        assert(toks_view(tokens@)[m as int + 1]
                                                            == tokens@[m as int + 1]@);
                                                    }
                                                }
                                                let closed = m + 1 < tokens.len() && match &tokens[m
                                                    + 1] {
                                                    LexerToken::Keyword(Keyword::Loop) => true,
                                                    _ => false,
                                                };
                                                if closed {
                                                    Ok(
                                                        (
                                                            Stmt::For(
                                                                For {
                                                                    name,
                                                                    start,
                                                                    end,
                                                                    stmts: body,
                                                                },
                                                            ),
                                                            m + 2,
                                                        ),
                                                    )
                                                } else {
                                                    Err(stmt_err())
                                                }
                                            },
                                        }
                                    },
                                }
                            } else {
                                Err(
                                    ParseError::new(
                                        String::from_str("Failed to parse 'to' in for stmt"),
                                    ),
                                )
                            }
                        },
                    }
                } else {
                    Err(ParseError::new(String::from_str("Failed to parse 'from' in for stmt")))
                }
            } else {
                Err(ParseError::new(String::from_str("Failed to parse loop stmt")))
            }
        },
        _ => Err(stmt_err()),
    }
}

fn parse_stmts_until_end(tokens: &Vec<LexerToken>, i: usize) -> (r: Result<
    (Vec<Stmt>, usize),
    ParseError,
>)
    ensures
        match parse_stmts_until_end_spec(toks_view(tokens@), i as int) {
            Ok((sv, j)) => r matches Ok(p) && stmts_view(p.0, p.0@.len() as int) == sv && p.1 == j
                && i <= p.1 < tokens@.len(),
            Err(m) => r matches Err(e) && e.msg@ == m,
        },
    decreases tokens@.len() - i, 6int,
{
    proof {
        if (i as int) < tokens@.len() {
            assert(toks_view(tokens@)[i as int] == tokens@[i as int]@);
        }
    }
    if i >= tokens.len() {
        return Err(stmt_err());
    }
    let at_end = match &tokens[i] {
        LexerToken::Keyword(Keyword::End) => true,
        _ => false,
    };
    if at_end {
        let v: Vec<Stmt> = Vec::new();
        proof {
            assert(stmts_view(v, v@.len() as int) =~= Seq::<StmtV>::empty());
        }
        return Ok((v, i));
    }
    match parse_stmt(tokens, i) {
        Err(e) => Err(e),
        Ok((s, j)) => {
            match parse_stmts_until_end(tokens, j) {
                Err(e) => Err(e),
                Ok((mut rest, k)) => {
                    let ghost oldv = rest;
                    let ghost sv = s@;
                    rest.insert(0, s);
                    proof {
                        lemma_stmts_view(oldv, oldv@.len() as int);
                        lemma_stmts_view(rest, rest@.len() as int);
                        assert(stmts_view(rest, rest@.len() as int) =~= seq![sv] + stmts_view(
                            oldv,
                            oldv@.len() as int,
                        ));
                    }
                    Ok((rest, k))
                },
            }
        },
    }
}

fn parse_branch_stmts(tokens: &Vec<LexerToken>, i: usize) -> (r: Result<
    (Vec<Stmt>, usize),
    ParseError,
>)
    ensures
        match parse_branch_stmts_spec(toks_view(tokens@), i as int) {
            Ok((sv, j)) => r matches Ok(p) && stmts_view(p.0, p.0@.len() as int) == sv && p.1 == j
                && i <= p.1 < tokens@.len(),
            Err(m) => r matches Err(e) && e.msg@ == m,
        },
    decreases tokens@.len() - i, 6int,
{
    proof {
        if (i as int) < tokens@.len() {
            assert(toks_view(tokens@)[i as int] == tokens@[i as int]@);
        }
    }
    if i >= tokens.len() {
        return Err(stmt_err());
    }
    let at_stop = match &tokens[i] {
        LexerToken::Keyword(Keyword::End) => true,
        LexerToken::Keyword(Keyword::Else) => true,
        _ => false,
    };
    if at_stop {
        let v: Vec<Stmt> = Vec::new();
        proof {
            assert(stmts_view(v, v@.len() as int) =~= Seq::<StmtV>::empty());
        }
        return Ok((v, i));
    }
    match parse_stmt(tokens, i) {
        Err(e) => Err(e),
        Ok((s, j)) => {
            match parse_branch_stmts(tokens, j) {
                Err(e) => Err(e),
                Ok((mut rest, k)) => {
                    let ghost oldv = rest;
                    let ghost sv = s@;
                    rest.insert(0, s);
                    proof {
                        lemma_stmts_view(oldv, oldv@.len() as int);
                        lemma_stmts_view(rest, rest@.len() as int);
                        assert(stmts_view(rest, rest@.len() as int) =~= seq![sv] + stmts_view(
                            oldv,
                            oldv@.len() as int,
                        ));
                    }
                    Ok((rest, k))
                },
            }
        },
    }
}

fn parse_if_tail(tokens: &Vec<LexerToken>, i: usize, cond: Expr) -> (r: Result<
    (Vec<(Expr, Vec<Stmt>)>, usize),
    ParseError,
>)
    ensures
        match parse_if_tail_spec(toks_view(tokens@), i as int, cond@) {
            Ok((bv, j)) => r matches Ok(p) && branches_view(p.0, p.0@.len() as int) == bv && p.1
                == j && i < p.1 <= tokens@.len(),
            Err(m) => r matches Err(e) && e.msg@ == m,
        },
    decreases tokens@.len() - i, 7int,
{
    match parse_branch_stmts(tokens, i) {
        Err(e) => Err(e),
        Ok((ss, j)) => {
            proof {
                assert(parse_branch_stmts_spec(toks_view(tokens@), i as int) is Ok);
                assert(i <= j < tokens@.len());
                assert(j < tokens.len());
                assert(toks_view(tokens@)[j as int] == tokens@[j as int]@);
                if (j as int) + 1 < tokens@.len() {
                    assert(toks_view(tokens@)[j as int + 1] == tokens@[j as int + 1]@);
                }
            }
            let kind: u32 = match &tokens[j] {
                LexerToken::Keyword(Keyword::End) => 1,
                LexerToken::Keyword(Keyword::Else) => 2,
                _ => 0,
            };
            if kind == 1 {
                let closes = j + 1 < tokens.len() && match &tokens[j + 1] {
                    LexerToken::Keyword(Keyword::If) => true,
                    _ => false,
                };
                if closes {
                    let mut bs: Vec<(Expr, Vec<Stmt>)> = Vec::new();
                    let ghost condv = cond@;
                    let ghost ssv = stmts_view(ss, ss@.len() as int);
                    bs.push((cond, ss));
                    proof {
                        lemma_branches_view(bs, bs@.len() as int);
                        assert(branches_view(bs, bs@.len() as int) =~= seq![(condv, ssv)]);
                    }
                    Ok((bs, j + 2))
                } else {
                    Err(if_err())
                }
            } else if kind == 2 {
                let else_if = j + 1 < tokens.len() && match &tokens[j + 1] {
                    LexerToken::Keyword(Keyword::If) => true,
                    _ => false,
                };
                if else_if {
                    match parse_expr(tokens, j + 2) {
                        Err(e) => Err(e),
                        Ok((cond2, k)) => {
                            proof {
                                if (k as int) < tokens@.len() {
                                    assert(toks_view(tokens@)[k as int] == tokens@[k as int]@);
                                }
                            }
                            let has_then = k < tokens.len() && match &tokens[k] {
                                LexerToken::Keyword(Keyword::Then) => true,
                                _ => false,
                            };
                            if has_then {
                                match parse_if_tail(tokens, k + 1, cond2) {
                                    Err(e) => Err(e),
                                    Ok((mut bs, m)) => {
                                        let ghost oldb = bs;
                                        let ghost condv = cond@;
                                        let ghost ssv = stmts_view(ss, ss@.len() as int);
                                        bs.insert(0, (cond, ss));
                                        proof {
                                            lemma_branches_view(oldb, oldb@.len() as int);
                                            lemma_branches_view(bs, bs@.len() as int);
                                            assert(branches_view(bs, bs@.len() as int) =~= seq![
                                                (condv, ssv),
                                            ] + branches_view(oldb, oldb@.len() as int));
                                        }
                                        Ok((bs, m))
                                    },
                                }
                            } else {
                                Err(if_err())
                            }
                        },
                    }
                } else {
                    match parse_if_tail(tokens, j + 1, Expr::BoolLit(true)) {
                        Err(e) => Err(e),
                        Ok((mut bs, m)) => {
                            let ghost oldb = bs;
                            let ghost condv = cond@;
                            let ghost ssv = stmts_view(ss, ss@.len() as int);
                            bs.insert(0, (cond, ss));
                            proof {
                                lemma_branches_view(oldb, oldb@.len() as int);
                                lemma_branches_view(bs, bs@.len() as int);
                                assert(branches_view(bs, bs@.len() as int) =~= seq![(condv, ssv)]
                                    + branches_view(oldb, oldb@.len() as int));
                            }
                            Ok((bs, m))
                        },
                    }
                }
            } else {
                Err(stmt_err())
            }
        },
    }
}

fn parse_prog(tokens: &Vec<LexerToken>, i: usize) -> (r: Result<Vec<Stmt>, ParseError>)
    ensures
        match parse_prog_spec(toks_view(tokens@), i as int) {
            Ok(sv) => r matches Ok(v) && stmts_view(v, v@.len() as int) == sv,
            Err(m) => r matches Err(e) && e.msg@ == m,
        },
    decreases tokens@.len() - i, 8int,
{
    if i >= tokens.len() {
        let v: Vec<Stmt> = Vec::new();
        proof {
            assert(stmts_view(v, v@.len() as int) =~= Seq::<StmtV>::empty());
        }
        return Ok(v);
    }
    match parse_stmt(tokens, i) {
        Err(e) => Err(e),
        Ok((s, j)) => {
            match parse_prog(tokens, j) {
                Err(e) => Err(e),
                Ok(mut rest) => {
                    let ghost oldv = rest;
                    let ghost sv = s@;
                    rest.insert(0, s);
                    proof {
                        lemma_stmts_view(oldv, oldv@.len() as int);
                        lemma_stmts_view(rest, rest@.len() as int);
                        assert(stmts_view(rest, rest@.len() as int) =~= seq![sv] + stmts_view(
                            oldv,
                            oldv@.len() as int,
                        ));
                    }
                    Ok(rest)
                },
            }
        },
    }
}

/// Turns the token sequence into the program's statements, or fails
/// with the first structural error; exactly `parse_prog_spec` on the
/// tokens.
pub fn parse(tokens: Vec<LexerToken>) -> (r: Result<Vec<Stmt>, ParseError>)
    ensures
        match parse_prog_spec(toks_view(tokens@), 0) {
            Ok(sv) => r matches Ok(v) && stmts_view(v, v@.len() as int) == sv,
            Err(m) => r matches Err(e) && e.msg@ == m,
        },
{
    parse_prog(&tokens, 0)
}

} // verus!
