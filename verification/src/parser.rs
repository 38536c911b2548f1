//! The parser: consumes tokens two at a time (current and lookahead) and
//! builds the AST, by recursive descent for statements and by precedence
//! climbing for expressions.
//!
//! The grammar itself is stated as spec-level relations ([`expr_parses`],
//! [`stmt_parses`], [`stmts_parse`]) over the token stream of the input;
//! every tree the parser emits is proved to stand in that relation to the
//! tokens it consumed.

use vstd::prelude::*;
use vstd::string::StringExecFns;

use crate::ast::expr_view;
use crate::ast::spec_expr_leading_token;
use crate::ast::expr_wf;
use crate::ast::stmt_view;
use crate::ast::stmt_wf;
use crate::ast::Expression;
use crate::ast::Identifier;
use crate::ast::InfixExpression;
use crate::ast::IntegerLiteral;
use crate::ast::LetStatement;
use crate::ast::PrefixExpression;
use crate::ast::Program;
use crate::ast::ReturnStatement;
use crate::ast::SpecExpr;
use crate::ast::SpecStmt;
use crate::ast::Statement;
use crate::ast::ExpressionStatement;
use crate::lexer::lemma_scan_progress;
use crate::lexer::spec_next_token;
use crate::lexer::Lexer;
use crate::lexer::SpecToken;
use crate::token::Token;
use crate::token::TokenKind;

verus! {

/// Operator binding powers, lowest to highest.
#[derive(Debug, Clone, Copy, PartialEq, Eq, Structural)]
pub enum Precedence {
    Lowest,
    Equals,
    LessGreater,
    Sum,
    Product,
    Prefix,
    Call,
}

/// The numeric rank of a binding power.
pub open spec fn spec_prec_value(p: Precedence) -> int {
    match p {
        Precedence::Lowest => 0,
        Precedence::Equals => 1,
        Precedence::LessGreater => 2,
        Precedence::Sum => 3,
        Precedence::Product => 4,
        Precedence::Prefix => 5,
        Precedence::Call => 6,
    }
}

/// The binding power of the infix operator a token kind stands for; kinds
/// that are no infix operator rank `Lowest`.
pub open spec fn spec_precedence_of(k: TokenKind) -> int {
    match k {
        TokenKind::Eq => 1,
        TokenKind::NotEq => 1,
        TokenKind::Lt => 2,
        TokenKind::Gt => 2,
        TokenKind::Plus => 3,
        TokenKind::Minus => 3,
        TokenKind::Slash => 4,
        TokenKind::Asterisk => 4,
        _ => 0,
    }
}

/// The kind of the token a scan starting at `p` yields.
pub open spec fn tok_kind_at(s: Seq<char>, p: int) -> TokenKind {
    spec_next_token(s, p).0.kind
}

/// The literal of the token a scan starting at `p` yields.
pub open spec fn tok_lit_at(s: Seq<char>, p: int) -> Seq<char> {
    spec_next_token(s, p).0.literal
}

/// The cursor position after the token a scan starting at `p` yields.
pub open spec fn next_pos(s: Seq<char>, p: int) -> int {
    spec_next_token(s, p).1
}

/// Whether precedence climbing with minimum binding power `mp` stops after
/// the token at `k`: the next token is no infix operator that binds tighter.
pub open spec fn climb_stops(s: Seq<char>, k: int, mp: int) -> bool {
    !(mp < spec_precedence_of(tok_kind_at(s, next_pos(s, k))))
}

/// The position of the last token of the expression `e`, were it read off
/// the token stream from position `p` by precedence climbing with minimum
/// binding power `mp`; `None` when `e` is not the tree such a parse builds
/// there. Leaves end in place; a prefix node covers its operator and its
/// operand, parsed with `Prefix` binding power; an infix node covers its
/// left operand (the chain parsed so far, at the same minimum power), its
/// operator (which must bind tighter than `mp`), and its right operand,
/// parsed with the operator's own power. An operand's parse is complete
/// only where its own climb stops.
pub open spec fn climb_end(s: Seq<char>, p: int, mp: int, e: SpecExpr) -> Option<int>
    decreases e,
{
    match e {
        SpecExpr::Ident { name } => if tok_kind_at(s, p) == TokenKind::Ident && name == tok_lit_at(
            s,
            p,
        ) {
            Some(p)
        } else {
            None
        },
        SpecExpr::Int { text } => if tok_kind_at(s, p) == TokenKind::Int && text == tok_lit_at(
            s,
            p,
        ) {
            Some(p)
        } else {
            None
        },
        SpecExpr::Prefix { op, right } => {
            let pp = spec_prec_value(Precedence::Prefix);
            if (tok_kind_at(s, p) == TokenKind::Bang || tok_kind_at(s, p) == TokenKind::Minus)
                && op == tok_lit_at(s, p) {
                match climb_end(s, next_pos(s, p), pp, *right) {
                    Some(k) => if climb_stops(s, k, pp) {
                        Some(k)
                    } else {
                        None
                    },
                    None => None,
                }
            } else {
                None
            }
        },
        SpecExpr::Infix { left, op, right } => match climb_end(s, p, mp, *left) {
            Some(kl) => {
                let opp = next_pos(s, kl);
                let rstart = next_pos(s, opp);
                let oprec = spec_precedence_of(tok_kind_at(s, opp));
                if mp < oprec && op == tok_lit_at(s, opp) {
                    match climb_end(s, rstart, oprec, *right) {
                        Some(kr) => if climb_stops(s, kr, oprec) {
                            Some(kr)
                        } else {
                            None
                        },
                        None => None,
                    }
                } else {
                    None
                }
            },
            None => None,
        },
    }
}

/// Token positions `p` and `q` bound the expression `e`: precedence
/// climbing with minimum binding power `mp` reads exactly `e` off the token
/// stream there, and stops after it.
pub open spec fn expr_parses(s: Seq<char>, p: int, q: int, mp: int, e: SpecExpr) -> bool {
    climb_end(s, p, mp, e) == Some::<int>(q) && climb_stops(s, q, mp)
}

/// The position of the last token of a statement whose expression ends at
/// `k`: the trailing semicolon if one follows, else `k` itself.
pub open spec fn opt_semi_end(s: Seq<char>, k: int) -> int {
    if tok_kind_at(s, next_pos(s, k)) == TokenKind::Semicolon {
        next_pos(s, k)
    } else {
        k
    }
}

/// The position of the last token of the statement `st`, were it read off
/// the token stream from position `p`; `None` when `st` is not the
/// statement parsed there. A let statement takes `let`, a name scanned as
/// `Ident`, `=`, and a lowest-precedence value; a return statement takes
/// `return` and either an immediate `;` (no value) or a lowest-precedence
/// value; any other leading token begins a statement of one expression.
/// Each form ends with an optional trailing semicolon.
pub open spec fn stmt_end(s: Seq<char>, p: int, st: SpecStmt) -> Option<int> {
    let low = spec_prec_value(Precedence::Lowest);
    match st {
        SpecStmt::Let { name, value } => {
            let p1 = next_pos(s, p);
            let p2 = next_pos(s, p1);
            let p3 = next_pos(s, p2);
            if tok_kind_at(s, p) == TokenKind::Let && tok_kind_at(s, p1) == TokenKind::Ident
                && name == tok_lit_at(s, p1) && tok_kind_at(s, p2) == TokenKind::Assign {
                match climb_end(s, p3, low, value) {
                    Some(k) => if climb_stops(s, k, low) {
                        Some(opt_semi_end(s, k))
                    } else {
                        None
                    },
                    None => None,
                }
            } else {
                None
            }
        },
        SpecStmt::Return { ret } => {
            let p1 = next_pos(s, p);
            if tok_kind_at(s, p) == TokenKind::Return {
                match ret {
                    None => if tok_kind_at(s, p1) == TokenKind::Semicolon {
                        Some(p1)
                    } else {
                        None
                    },
                    Some(v) => if tok_kind_at(s, p1) != TokenKind::Semicolon {
                        match climb_end(s, p1, low, v) {
                            Some(k) => if climb_stops(s, k, low) {
                                Some(opt_semi_end(s, k))
                            } else {
                                None
                            },
                            None => None,
                        }
                    } else {
                        None
                    },
                }
            } else {
                None
            }
        },
        SpecStmt::Expr { value } => {
            if tok_kind_at(s, p) != TokenKind::Let && tok_kind_at(s, p) != TokenKind::Return {
                match climb_end(s, p, low, value) {
                    Some(k) => if climb_stops(s, k, low) {
                        Some(opt_semi_end(s, k))
                    } else {
                        None
                    },
                    None => None,
                }
            } else {
                None
            }
        },
    }
}

/// Token positions `p` and `q` bound the statement `st`.
pub open spec fn stmt_parses(s: Seq<char>, p: int, q: int, st: SpecStmt) -> bool {
    stmt_end(s, p, st) == Some::<int>(q)
}

/// Positions `p` and `q` bound a whole program with statement images `sts`:
/// statements in source order, the cursor advancing once between them, until
/// the current token is `Eof` (at `q`).
pub open spec fn stmts_parse(s: Seq<char>, p: int, q: int, sts: Seq<SpecStmt>) -> bool
    decreases sts.len(),
{
    if sts.len() == 0 {
        q == p && tok_kind_at(s, p) == TokenKind::Eof
    } else {
        match stmt_end(s, p, sts[0]) {
            Some(k) => stmts_parse(s, next_pos(s, k), q, sts.drop_first()),
            None => false,
        }
    }
}

/// Inversion: where the token under scan is a name and the token after it
/// does not bind, the only expression a climb can read there is that name
/// alone, ending in place.
proof fn lemma_climb_ident_only(s: Seq<char>, x: int, mp: int, e: SpecExpr, k: int)
    requires
        tok_kind_at(s, x) == TokenKind::Ident,
        spec_precedence_of(tok_kind_at(s, next_pos(s, x))) <= mp,
        climb_end(s, x, mp, e) == Some::<int>(k),
    ensures
        e == (SpecExpr::Ident { name: tok_lit_at(s, x) }),
        k == x,
    decreases e,
{
    match e {
        SpecExpr::Ident { .. } => {},
        SpecExpr::Int { .. } => {},
        SpecExpr::Prefix { .. } => {},
        SpecExpr::Infix { left, op, right } => {
            let kl = climb_end(s, x, mp, *left)->0;
            lemma_climb_ident_only(s, x, mp, *left, kl);
        },
    }
}

/// Inversion for the tail `<name> * <name>` at `Sum` binding power: the
/// climb reads either the first name alone, or the whole product.
proof fn lemma_climb_product_tail(s: Seq<char>, x: int, e: SpecExpr, k: int)
    requires
        tok_kind_at(s, x) == TokenKind::Ident,
        tok_kind_at(s, next_pos(s, x)) == TokenKind::Asterisk,
        tok_kind_at(s, next_pos(s, next_pos(s, x))) == TokenKind::Ident,
        spec_precedence_of(
            tok_kind_at(s, next_pos(s, next_pos(s, next_pos(s, x)))),
        ) == spec_prec_value(Precedence::Lowest),
        climb_end(s, x, spec_prec_value(Precedence::Sum), e) == Some::<int>(k),
    ensures
        e == (SpecExpr::Ident { name: tok_lit_at(s, x) }) && k == x || e == (SpecExpr::Infix {
            left: Box::new(SpecExpr::Ident { name: tok_lit_at(s, x) }),
            op: tok_lit_at(s, next_pos(s, x)),
            right: Box::new(
                SpecExpr::Ident { name: tok_lit_at(s, next_pos(s, next_pos(s, x))) },
            ),
        }) && k == next_pos(s, next_pos(s, x)),
    decreases e,
{
    match e {
        SpecExpr::Ident { .. } => {},
        SpecExpr::Int { .. } => {},
        SpecExpr::Prefix { .. } => {},
        SpecExpr::Infix { left, op, right } => {
            let mp = spec_prec_value(Precedence::Sum);
            let kl = climb_end(s, x, mp, *left)->0;
            lemma_climb_product_tail(s, x, *left, kl);
            if kl == x {
                let rstart = next_pos(s, next_pos(s, x));
                let kr = climb_end(
                    s,
                    rstart,
                    spec_precedence_of(TokenKind::Asterisk),
                    *right,
                )->0;
                lemma_climb_ident_only(
                    s,
                    rstart,
                    spec_precedence_of(TokenKind::Asterisk),
                    *right,
                    kr,
                );
            }
        },
    }
}

/// Inversion for `<name> + <name> * <name>` at `Lowest` binding power: the
/// climb reads either the first name alone, or the whole sum, with the
/// product as its right operand.
proof fn lemma_climb_sum_product(s: Seq<char>, x: int, e: SpecExpr, k: int)
    requires
        tok_kind_at(s, x) == TokenKind::Ident,
        tok_kind_at(s, next_pos(s, x)) == TokenKind::Plus,
        tok_kind_at(s, next_pos(s, next_pos(s, x))) == TokenKind::Ident,
        tok_kind_at(s, next_pos(s, next_pos(s, next_pos(s, x)))) == TokenKind::Asterisk,
        tok_kind_at(
            s,
            next_pos(s, next_pos(s, next_pos(s, next_pos(s, x)))),
        ) == TokenKind::Ident,
        spec_precedence_of(
            tok_kind_at(s, next_pos(s, next_pos(s, next_pos(s, next_pos(s, next_pos(s, x)))))),
        ) == spec_prec_value(Precedence::Lowest),
        climb_end(s, x, spec_prec_value(Precedence::Lowest), e) == Some::<int>(k),
    ensures
        ({
            let p1 = next_pos(s, x);
            let p2 = next_pos(s, p1);
            let p3 = next_pos(s, p2);
            let p4 = next_pos(s, p3);
            e == (SpecExpr::Ident { name: tok_lit_at(s, x) }) && k == x || e == (SpecExpr::Infix {
                left: Box::new(SpecExpr::Ident { name: tok_lit_at(s, x) }),
                op: tok_lit_at(s, p1),
                right: Box::new(
                    SpecExpr::Infix {
                        left: Box::new(SpecExpr::Ident { name: tok_lit_at(s, p2) }),
                        op: tok_lit_at(s, p3),
                        right: Box::new(SpecExpr::Ident { name: tok_lit_at(s, p4) }),
                    },
                ),
            }) && k == p4
        }),
    decreases e,
{
    match e {
        SpecExpr::Ident { .. } => {},
        SpecExpr::Int { .. } => {},
        SpecExpr::Prefix { .. } => {},
        SpecExpr::Infix { left, op, right } => {
            let mp = spec_prec_value(Precedence::Lowest);
            let kl = climb_end(s, x, mp, *left)->0;
            lemma_climb_sum_product(s, x, *left, kl);
            if kl == x {
                let rstart = next_pos(s, next_pos(s, x));
                let kr = climb_end(
                    s,
                    rstart,
                    spec_precedence_of(TokenKind::Plus),
                    *right,
                )->0;
                lemma_climb_product_tail(s, rstart, *right, kr);
            }
        },
    }
}

/// The precedence law: wherever the token stream reads a name, `+`, a name,
/// `*` and a name, with nothing after them that binds, the expression parsed
/// there at lowest precedence binds `*` tighter than `+`: it is the first
/// name summed with the product of the other two, never the other grouping.
pub proof fn lemma_product_binds_tighter_than_sum(s: Seq<char>, p: int, q: int, e: SpecExpr)
    requires
        tok_kind_at(s, p) == TokenKind::Ident,
        tok_kind_at(s, next_pos(s, p)) == TokenKind::Plus,
        tok_kind_at(s, next_pos(s, next_pos(s, p))) == TokenKind::Ident,
        tok_kind_at(s, next_pos(s, next_pos(s, next_pos(s, p)))) == TokenKind::Asterisk,
        tok_kind_at(
            s,
            next_pos(s, next_pos(s, next_pos(s, next_pos(s, p)))),
        ) == TokenKind::Ident,
        spec_precedence_of(
            tok_kind_at(s, next_pos(s, next_pos(s, next_pos(s, next_pos(s, next_pos(s, p)))))),
        ) == spec_prec_value(Precedence::Lowest),
        expr_parses(s, p, q, spec_prec_value(Precedence::Lowest), e),
    ensures
        ({
            let p1 = next_pos(s, p);
            let p2 = next_pos(s, p1);
            let p3 = next_pos(s, p2);
            let p4 = next_pos(s, p3);
            &&& q == p4
            &&& e == (SpecExpr::Infix {
                left: Box::new(SpecExpr::Ident { name: tok_lit_at(s, p) }),
                op: tok_lit_at(s, p1),
                right: Box::new(
                    SpecExpr::Infix {
                        left: Box::new(SpecExpr::Ident { name: tok_lit_at(s, p2) }),
                        op: tok_lit_at(s, p3),
                        right: Box::new(SpecExpr::Ident { name: tok_lit_at(s, p4) }),
                    },
                ),
            })
        }),
{
    lemma_climb_sum_product(s, p, e, q);
}

/// `e` grows out of `base` by infix steps alone: `base` stands on the
/// left spine of `e`.
pub open spec fn extends_from(base: SpecExpr, e: SpecExpr) -> bool
    decreases e,
{
    e == base || (e matches SpecExpr::Infix { left, .. } && extends_from(base, *left))
}

/// A climb never moves the cursor backwards nor past the end of the input.
proof fn lemma_climb_bounds(s: Seq<char>, p: int, mp: int, e: SpecExpr, k: int)
    requires
        0 <= p <= s.len(),
        climb_end(s, p, mp, e) == Some::<int>(k),
    ensures
        p <= k <= s.len(),
    decreases e,
{
    match e {
        SpecExpr::Ident { .. } => {},
        SpecExpr::Int { .. } => {},
        SpecExpr::Prefix { op, right } => {
            lemma_scan_progress(s, p);
            lemma_climb_bounds(s, next_pos(s, p), spec_prec_value(Precedence::Prefix), *right, k);
        },
        SpecExpr::Infix { left, op, right } => {
            let kl = climb_end(s, p, mp, *left)->0;
            lemma_climb_bounds(s, p, mp, *left, kl);
            lemma_scan_progress(s, kl);
            let opp = next_pos(s, kl);
            lemma_scan_progress(s, opp);
            lemma_climb_bounds(
                s,
                next_pos(s, opp),
                spec_precedence_of(tok_kind_at(s, opp)),
                *right,
                k,
            );
        },
    }
}

/// Along a left spine, end positions only grow, strictly with each infix
/// step folded in.
proof fn lemma_extends_end(
    s: Seq<char>,
    p: int,
    mp: int,
    base: SpecExpr,
    kb: int,
    e: SpecExpr,
    ke: int,
)
    requires
        0 <= p <= s.len(),
        mp >= 0,
        climb_end(s, p, mp, base) == Some::<int>(kb),
        climb_end(s, p, mp, e) == Some::<int>(ke),
        extends_from(base, e),
    ensures
        kb <= ke,
        e != base ==> kb < ke,
    decreases e,
{
    if e != base {
        match e {
            SpecExpr::Infix { left, op, right } => {
                let kl = climb_end(s, p, mp, *left)->0;
                lemma_extends_end(s, p, mp, base, kb, *left, kl);
                lemma_climb_bounds(s, p, mp, *left, kl);
                lemma_scan_progress(s, kl);
                let opp = next_pos(s, kl);
                lemma_scan_progress(s, opp);
                lemma_climb_bounds(
                    s,
                    next_pos(s, opp),
                    spec_precedence_of(tok_kind_at(s, opp)),
                    *right,
                    ke,
                );
            },
            _ => {},
        }
    }
}

/// Where `e` strictly extends `base`, the chain continues right after
/// `base`: the token after its last one binds tighter than `mp`, and a
/// right operand parses there with that operator's own power.
proof fn lemma_extends_step(
    s: Seq<char>,
    p: int,
    mp: int,
    base: SpecExpr,
    kb: int,
    e: SpecExpr,
    ke: int,
)
    requires
        climb_end(s, p, mp, base) == Some::<int>(kb),
        climb_end(s, p, mp, e) == Some::<int>(ke),
        extends_from(base, e),
        e != base,
    ensures
        mp < spec_precedence_of(tok_kind_at(s, next_pos(s, kb))),
        exists|q: int, r: SpecExpr| #[trigger] expr_parses(
            s,
            next_pos(s, next_pos(s, kb)),
            q,
            spec_precedence_of(tok_kind_at(s, next_pos(s, kb))),
            r,
        ),
    decreases e,
{
    match e {
        SpecExpr::Infix { left, op, right } => {
            if *left == base {
                let opp = next_pos(s, kb);
                let oprec = spec_precedence_of(tok_kind_at(s, opp));
                let kr = climb_end(s, next_pos(s, opp), oprec, *right)->0;
                assert(expr_parses(s, next_pos(s, opp), kr, oprec, *right));
            } else {
                let kl = climb_end(s, p, mp, *left)->0;
                lemma_extends_step(s, p, mp, base, kb, *left, kl);
            }
        },
        _ => {},
    }
}

/// Any two expressions a climb can read from one position at one binding
/// power lie on one left spine: one extends the other, and equal end
/// positions force equal trees.
proof fn lemma_climb_agree(
    s: Seq<char>,
    p: int,
    mp: int,
    e1: SpecExpr,
    k1: int,
    e2: SpecExpr,
    k2: int,
)
    requires
        0 <= p <= s.len(),
        mp >= 0,
        climb_end(s, p, mp, e1) == Some::<int>(k1),
        climb_end(s, p, mp, e2) == Some::<int>(k2),
    ensures
        extends_from(e1, e2) || extends_from(e2, e1),
        k1 == k2 ==> e1 == e2,
    decreases e1, e2,
{
    match e2 {
        SpecExpr::Infix { left: l2, op: op2, right: r2 } => {
            let kl2 = climb_end(s, p, mp, *l2)->0;
            let opp2 = next_pos(s, kl2);
            let oprec2 = spec_precedence_of(tok_kind_at(s, opp2));
            match e1 {
                SpecExpr::Infix { left: l1, op: op1, right: r1 } => {
                    let kl1 = climb_end(s, p, mp, *l1)->0;
                    lemma_climb_agree(s, p, mp, *l1, kl1, *l2, kl2);
                    if *l1 == *l2 {
                        let opp = next_pos(s, kl1);
                        let rstart = next_pos(s, opp);
                        let oprec = spec_precedence_of(tok_kind_at(s, opp));
                        lemma_climb_bounds(s, p, mp, *l1, kl1);
                        lemma_scan_progress(s, kl1);
                        lemma_scan_progress(s, opp);
                        let kr1 = climb_end(s, rstart, oprec, *r1)->0;
                        let kr2 = climb_end(s, rstart, oprec, *r2)->0;
                        lemma_climb_agree(s, rstart, oprec, *r1, kr1, *r2, kr2);
                        if *r1 != *r2 {
                            if extends_from(*r1, *r2) {
                                lemma_extends_step(s, rstart, oprec, *r1, kr1, *r2, kr2);
                            } else {
                                lemma_extends_step(s, rstart, oprec, *r2, kr2, *r1, kr1);
                            }
                            assert(false);
                        }
                    } else if extends_from(*l1, *l2) {
                        lemma_climb_agree(s, p, mp, e1, k1, *l2, kl2);
                        if extends_from(e1, *l2) {
                            if e1 != e2 {
                                lemma_extends_end(s, p, mp, e1, k1, e2, k2);
                            }
                        } else {
                            if *l2 == e1 {
                                lemma_climb_bounds(s, p, mp, *l2, kl2);
                                lemma_scan_progress(s, kl2);
                                lemma_scan_progress(s, opp2);
                                lemma_climb_bounds(s, next_pos(s, opp2), oprec2, *r2, k2);
                            } else {
                                lemma_extends_end(s, p, mp, *l1, kl1, *l2, kl2);
                                lemma_extends_end(s, p, mp, *l2, kl2, *l1, kl1);
                                assert(false);
                            }
                        }
                    } else {
                        lemma_climb_agree(s, p, mp, *l1, kl1, e2, k2);
                        if extends_from(e2, *l1) {
                            if e1 != e2 {
                                lemma_extends_end(s, p, mp, e2, k2, e1, k1);
                            }
                        } else {
                            if *l1 == e2 {
                                let opp1 = next_pos(s, kl1);
                                lemma_climb_bounds(s, p, mp, *l1, kl1);
                                lemma_scan_progress(s, kl1);
                                lemma_scan_progress(s, opp1);
                                lemma_climb_bounds(
                                    s,
                                    next_pos(s, opp1),
                                    spec_precedence_of(tok_kind_at(s, opp1)),
                                    *r1,
                                    k1,
                                );
                            } else {
                                lemma_extends_end(s, p, mp, *l2, kl2, *l1, kl1);
                                lemma_extends_end(s, p, mp, *l1, kl1, *l2, kl2);
                                assert(false);
                            }
                        }
                    }
                },
                _ => {
                    lemma_climb_agree(s, p, mp, e1, k1, *l2, kl2);
                    if extends_from(e1, *l2) {
                        lemma_extends_end(s, p, mp, e1, k1, e2, k2);
                    } else {
                        lemma_climb_bounds(s, p, mp, *l2, kl2);
                        lemma_scan_progress(s, kl2);
                        lemma_scan_progress(s, opp2);
                        lemma_climb_bounds(s, next_pos(s, opp2), oprec2, *r2, k2);
                    }
                },
            }
        },
        _ => {
            match e1 {
                SpecExpr::Infix { left: l1, op: op1, right: r1 } => {
                    let kl1 = climb_end(s, p, mp, *l1)->0;
                    let opp1 = next_pos(s, kl1);
                    let oprec1 = spec_precedence_of(tok_kind_at(s, opp1));
                    lemma_climb_agree(s, p, mp, *l1, kl1, e2, k2);
                    if extends_from(e2, *l1) {
                        lemma_extends_end(s, p, mp, e2, k2, e1, k1);
                    } else {
                        lemma_climb_bounds(s, p, mp, *l1, kl1);
                        lemma_scan_progress(s, kl1);
                        lemma_scan_progress(s, opp1);
                        lemma_climb_bounds(s, next_pos(s, opp1), oprec1, *r1, k1);
                    }
                },
                _ => {
                    match (e1, e2) {
                        (
                            SpecExpr::Prefix { op: o1, right: r1 },
                            SpecExpr::Prefix { op: o2, right: r2 },
                        ) => {
                            let pp = spec_prec_value(Precedence::Prefix);
                            let p1 = next_pos(s, p);
                            lemma_scan_progress(s, p);
                            let kr1 = climb_end(s, p1, pp, *r1)->0;
                            let kr2 = climb_end(s, p1, pp, *r2)->0;
                            lemma_climb_agree(s, p1, pp, *r1, kr1, *r2, kr2);
                            if *r1 != *r2 {
                                if extends_from(*r1, *r2) {
                                    lemma_extends_step(s, p1, pp, *r1, kr1, *r2, kr2);
                                } else {
                                    lemma_extends_step(s, p1, pp, *r2, kr2, *r1, kr1);
                                }
                                assert(false);
                            }
                        },
                        _ => {},
                    }
                },
            }
        },
    }
}

/// The grammar is unambiguous: at one position and minimum binding power,
/// at most one expression parses, and it has one end position.
pub proof fn lemma_expr_parse_unique(
    s: Seq<char>,
    p: int,
    mp: int,
    e1: SpecExpr,
    q1: int,
    e2: SpecExpr,
    q2: int,
)
    requires
        0 <= p <= s.len(),
        mp >= 0,
        expr_parses(s, p, q1, mp, e1),
        expr_parses(s, p, q2, mp, e2),
    ensures
        e1 == e2,
        q1 == q2,
{
    lemma_climb_agree(s, p, mp, e1, q1, e2, q2);
    if e1 != e2 {
        if extends_from(e1, e2) {
            lemma_extends_step(s, p, mp, e1, q1, e2, q2);
        } else {
            lemma_extends_step(s, p, mp, e2, q2, e1, q1);
        }
        assert(false);
    }
}

/// No expression climb can start on a token that no prefix rule covers.
proof fn lemma_climb_none_without_prefix(s: Seq<char>, p: int, mp: int, e: SpecExpr)
    requires
        tok_kind_at(s, p) != TokenKind::Ident,
        tok_kind_at(s, p) != TokenKind::Int,
        tok_kind_at(s, p) != TokenKind::Bang,
        tok_kind_at(s, p) != TokenKind::Minus,
    ensures
        climb_end(s, p, mp, e) is None,
    decreases e,
{
    match e {
        SpecExpr::Infix { left, .. } => {
            lemma_climb_none_without_prefix(s, p, mp, *left);
        },
        _ => {},
    }
}

/// No expression climb can start on a prefix operator whose operand
/// position admits no complete parse at `Prefix` binding power.
proof fn lemma_climb_none_bad_operand(s: Seq<char>, p: int, mp: int, e: SpecExpr)
    requires
        tok_kind_at(s, p) == TokenKind::Bang || tok_kind_at(s, p) == TokenKind::Minus,
        forall|q: int, r: SpecExpr| !expr_parses(
            s,
            next_pos(s, p),
            q,
            spec_prec_value(Precedence::Prefix),
            r,
        ),
    ensures
        climb_end(s, p, mp, e) is None,
    decreases e,
{
    match e {
        SpecExpr::Prefix { op, right } => {
            let pp = spec_prec_value(Precedence::Prefix);
            match climb_end(s, next_pos(s, p), pp, *right) {
                Some(k) => {
                    assert(!expr_parses(s, next_pos(s, p), k, pp, *right));
                },
                None => {},
            }
        },
        SpecExpr::Infix { left, .. } => {
            lemma_climb_none_bad_operand(s, p, mp, *left);
        },
        _ => {},
    }
}

/// Where the chain out of `lv` (ending at `k`) must continue — the next
/// token binds tighter than `mp` — but no right operand parses after the
/// operator, no expression at all parses from `p` at power `mp`.
proof fn lemma_chain_blocked(s: Seq<char>, p: int, mp: int, lv: SpecExpr, k: int)
    requires
        0 <= p <= s.len(),
        mp >= 0,
        climb_end(s, p, mp, lv) == Some::<int>(k),
        mp < spec_precedence_of(tok_kind_at(s, next_pos(s, k))),
        forall|q: int, r: SpecExpr| !expr_parses(
            s,
            next_pos(s, next_pos(s, k)),
            q,
            spec_precedence_of(tok_kind_at(s, next_pos(s, k))),
            r,
        ),
    ensures
        forall|q: int, e: SpecExpr| !expr_parses(s, p, q, mp, e),
{
    assert forall|q: int, e: SpecExpr| !expr_parses(s, p, q, mp, e) by {
        if expr_parses(s, p, q, mp, e) {
            lemma_climb_agree(s, p, mp, lv, k, e, q);
            if e == lv {
                assert(!climb_stops(s, q, mp));
            } else if extends_from(lv, e) {
                lemma_extends_step(s, p, mp, lv, k, e, q);
            } else {
                lemma_extends_step(s, p, mp, e, q, lv, k);
                assert(!climb_stops(s, q, mp));
            }
            assert(false);
        }
    }
}

/// At one position at most one statement parses, with one end position.
pub proof fn lemma_stmt_end_unique(
    s: Seq<char>,
    p: int,
    st1: SpecStmt,
    k1: int,
    st2: SpecStmt,
    k2: int,
)
    requires
        0 <= p <= s.len(),
        stmt_end(s, p, st1) == Some::<int>(k1),
        stmt_end(s, p, st2) == Some::<int>(k2),
    ensures
        st1 == st2,
        k1 == k2,
{
    let low = spec_prec_value(Precedence::Lowest);
    lemma_scan_progress(s, p);
    let p1 = next_pos(s, p);
    lemma_scan_progress(s, p1);
    let p2 = next_pos(s, p1);
    lemma_scan_progress(s, p2);
    let p3 = next_pos(s, p2);
    match (st1, st2) {
        (SpecStmt::Let { name: n1, value: v1 }, SpecStmt::Let { name: n2, value: v2 }) => {
            let e1 = climb_end(s, p3, low, v1)->0;
            let e2 = climb_end(s, p3, low, v2)->0;
            lemma_expr_parse_unique(s, p3, low, v1, e1, v2, e2);
        },
        (SpecStmt::Return { ret: r1 }, SpecStmt::Return { ret: r2 }) => {
            match (r1, r2) {
                (Some(v1), Some(v2)) => {
                    let e1 = climb_end(s, p1, low, v1)->0;
                    let e2 = climb_end(s, p1, low, v2)->0;
                    lemma_expr_parse_unique(s, p1, low, v1, e1, v2, e2);
                },
                _ => {},
            }
        },
        (SpecStmt::Expr { value: v1 }, SpecStmt::Expr { value: v2 }) => {
            let e1 = climb_end(s, p, low, v1)->0;
            let e2 = climb_end(s, p, low, v2)->0;
            lemma_expr_parse_unique(s, p, low, v1, e1, v2, e2);
        },
        _ => {},
    }
}

/// A keyword token carries the keyword itself as its literal text.
pub proof fn lemma_keyword_literal(s: Seq<char>, p: int)
    ensures
        tok_kind_at(s, p) == TokenKind::Let ==> tok_lit_at(s, p) == "let"@,
        tok_kind_at(s, p) == TokenKind::Return ==> tok_lit_at(s, p) == "return"@,
{
}

/// A token value carries exactly a spec-level token.
pub open spec fn token_is(t: Token, st: SpecToken) -> bool {
    t.token_kind == st.kind && t.literal@ == st.literal
}

/// The name of a token kind, as it appears in error messages.
pub open spec fn spec_kind_name(k: TokenKind) -> Seq<char> {
    match k {
        TokenKind::Illegal => "Illegal"@,
        TokenKind::Eof => "Eof"@,
        TokenKind::Ident => "Ident"@,
        TokenKind::Int => "Int"@,
        TokenKind::Assign => "Assign"@,
        TokenKind::Plus => "Plus"@,
        TokenKind::Minus => "Minus"@,
        TokenKind::Bang => "Bang"@,
        TokenKind::Asterisk => "Asterisk"@,
        TokenKind::Slash => "Slash"@,
        TokenKind::Lt => "Lt"@,
        TokenKind::Gt => "Gt"@,
        TokenKind::Eq => "Eq"@,
        TokenKind::NotEq => "NotEq"@,
        TokenKind::Comma => "Comma"@,
        TokenKind::Semicolon => "Semicolon"@,
        TokenKind::LParen => "LParen"@,
        TokenKind::RParen => "RParen"@,
        TokenKind::LBrace => "LBrace"@,
        TokenKind::RBrace => "RBrace"@,
        TokenKind::Function => "Function"@,
        TokenKind::Let => "Let"@,
        TokenKind::True => "True"@,
        TokenKind::False => "False"@,
        TokenKind::If => "If"@,
        TokenKind::Else => "Else"@,
        TokenKind::Return => "Return"@,
    }
}

/// Exactly one message was appended to the error list, and it is one of the
/// parser's two diagnostics: a peek error or a missing prefix rule.
pub open spec fn one_error_added(old_e: Seq<String>, new_e: Seq<String>) -> bool {
    &&& new_e.len() == old_e.len() + 1
    &&& new_e.drop_last() == old_e
    &&& ((exists|exp: TokenKind, got: TokenKind| new_e.last()@ == spec_peek_error_msg(exp, got))
        || (exists|k: TokenKind| new_e.last()@ == spec_no_prefix_msg(k)))
}

/// One message was appended to the error list, and nothing else changed.
pub open spec fn errors_extended(old_e: Seq<String>, new_e: Seq<String>, msg: Seq<char>) -> bool {
    &&& new_e.len() == old_e.len() + 1
    &&& new_e.drop_last() == old_e
    &&& new_e.last()@ == msg
}

/// The message recorded when a lookahead token is not what a grammar rule
/// required next.
pub open spec fn spec_peek_error_msg(expected: TokenKind, got: TokenKind) -> Seq<char> {
    "expected next token to be "@ + spec_kind_name(expected) + " got "@ + spec_kind_name(got)
        + " instead"@
}

/// The message recorded when an expression was expected but no prefix parse
/// rule exists for the current token.
pub open spec fn spec_no_prefix_msg(k: TokenKind) -> Seq<char> {
    "no prefix parse function for "@ + spec_kind_name(k) + " found"@
}

/// The name of a token kind, for error messages.
fn kind_name(k: TokenKind) -> (r: &'static str)
    ensures
        r@ == spec_kind_name(k),
{
    match k {
        TokenKind::Illegal => "Illegal",
        TokenKind::Eof => "Eof",
        TokenKind::Ident => "Ident",
        TokenKind::Int => "Int",
        TokenKind::Assign => "Assign",
        TokenKind::Plus => "Plus",
        TokenKind::Minus => "Minus",
        TokenKind::Bang => "Bang",
        TokenKind::Asterisk => "Asterisk",
        TokenKind::Slash => "Slash",
        TokenKind::Lt => "Lt",
        TokenKind::Gt => "Gt",
        TokenKind::Eq => "Eq",
        TokenKind::NotEq => "NotEq",
        TokenKind::Comma => "Comma",
        TokenKind::Semicolon => "Semicolon",
        TokenKind::LParen => "LParen",
        TokenKind::RParen => "RParen",
        TokenKind::LBrace => "LBrace",
        TokenKind::RBrace => "RBrace",
        TokenKind::Function => "Function",
        TokenKind::Let => "Let",
        TokenKind::True => "True",
        TokenKind::False => "False",
        TokenKind::If => "If",
        TokenKind::Else => "Else",
        TokenKind::Return => "Return",
    }
}

/// The numeric rank of a binding power.
fn prec_value(p: Precedence) -> (v: u8)
    ensures
        v as int == spec_prec_value(p),
{
    match p {
        Precedence::Lowest => 0u8,
        Precedence::Equals => 1u8,
        Precedence::LessGreater => 2u8,
        Precedence::Sum => 3u8,
        Precedence::Product => 4u8,
        Precedence::Prefix => 5u8,
        Precedence::Call => 6u8,
    }
}

/// The binding power of the infix operator a token kind stands for.
fn token_precedence(k: TokenKind) -> (p: Precedence)
    ensures
        spec_prec_value(p) == spec_precedence_of(k),
{
    match k {
        TokenKind::Eq => Precedence::Equals,
        TokenKind::NotEq => Precedence::Equals,
        TokenKind::Lt => Precedence::LessGreater,
        TokenKind::Gt => Precedence::LessGreater,
        TokenKind::Plus => Precedence::Sum,
        TokenKind::Minus => Precedence::Sum,
        TokenKind::Slash => Precedence::Product,
        TokenKind::Asterisk => Precedence::Product,
        _ => Precedence::Lowest,
    }
}

/// The parser: owns the lexer, holds the current token and one token of
/// lookahead, and accumulates error messages in detection order for its
/// whole lifetime.
pub struct Parser {
    l: Lexer,
    pub errors: Vec<String>,
    cur_token: Token,
    peek_token: Token,
    pos: Ghost<int>,
}

impl Parser {
    /// The characters of the source text under the owned lexer.
    pub closed spec fn spec_input(&self) -> Seq<char> {
        self.l.spec_input()
    }

    /// The position from which the current token was scanned.
    pub closed spec fn spec_pos(&self) -> int {
        self.pos@
    }

    /// The error messages recorded so far, in detection order.
    pub closed spec fn spec_errors(&self) -> Seq<String> {
        self.errors@
    }

    /// The current token's spec-level image.
    pub open spec fn spec_cur(&self) -> SpecToken {
        spec_next_token(self.spec_input(), self.spec_pos()).0
    }

    /// The lookahead token's spec-level image.
    pub open spec fn spec_peek(&self) -> SpecToken {
        spec_next_token(self.spec_input(), next_pos(self.spec_input(), self.spec_pos())).0
    }

    /// Internal consistency: the held tokens are the ones a scan yields at
    /// the tracked position, and the lexer stands one token further.
    pub closed spec fn wf(&self) -> bool {
        &&& self.l.wf()
        &&& 0 <= self.pos@ <= self.spec_input().len()
        &&& token_is(self.cur_token, self.spec_cur())
        &&& token_is(self.peek_token, self.spec_peek())
        &&& self.l.spec_pos() == next_pos(
            self.spec_input(),
            next_pos(self.spec_input(), self.pos@),
        )
    }

    /// Builds a parser over a fresh lexer, pulling two tokens so that the
    /// current and lookahead tokens are both populated.
    pub fn new(l: Lexer) -> (p: Parser)
        requires
            l.wf(),
            l.spec_pos() == 0,
        ensures
            p.wf(),
            p.spec_input() == l.spec_input(),
            p.spec_pos() == 0,
            p.spec_errors().len() == 0,
    {
        let ghost s = l.spec_input();
        let mut lex = l;
        proof {
            lemma_scan_progress(s, 0);
        }
        let cur = lex.next_token();
        proof {
            lemma_scan_progress(s, next_pos(s, 0));
        }
        let peek = lex.next_token();
        Parser { l: lex, errors: Vec::new(), cur_token: cur, peek_token: peek, pos: Ghost(0) }
    }

    /// Shifts the lookahead token into the current one and pulls a new
    /// lookahead token from the lexer.
    fn next_token(&mut self)
        requires
            old(self).wf(),
        ensures
            final(self).wf(),
            final(self).spec_input() == old(self).spec_input(),
            final(self).spec_pos() == next_pos(old(self).spec_input(), old(self).spec_pos()),
            old(self).spec_pos() <= final(self).spec_pos(),
            final(self).spec_errors() == old(self).spec_errors(),
    {
        let ghost s = self.spec_input();
        let ghost p = self.pos@;
        proof {
            lemma_scan_progress(s, p);
            lemma_scan_progress(s, next_pos(s, p));
            lemma_scan_progress(s, next_pos(s, next_pos(s, p)));
        }
        self.cur_token = self.peek_token.clone();
        self.peek_token = self.l.next_token();
        self.pos = Ghost(next_pos(s, p));
    }

    /// Whether the current token has the given kind.
    fn cur_token_is(&self, t: TokenKind) -> (r: bool)
        requires
            self.wf(),
        ensures
            r == (self.spec_cur().kind == t),
    {
        self.cur_token.token_kind == t
    }

    /// Whether the lookahead token has the given kind.
    fn peek_token_is(&self, t: TokenKind) -> (r: bool)
        requires
            self.wf(),
        ensures
            r == (self.spec_peek().kind == t),
    {
        self.peek_token.token_kind == t
    }

    /// Records that the lookahead token was not what the grammar required.
    fn peek_error(&mut self, t: TokenKind)
        requires
            old(self).wf(),
        ensures
            final(self).wf(),
            final(self).spec_input() == old(self).spec_input(),
            final(self).spec_pos() == old(self).spec_pos(),
            errors_extended(
                old(self).spec_errors(),
                final(self).spec_errors(),
                spec_peek_error_msg(t, old(self).spec_peek().kind),
            ),
    {
        let mut msg = String::from_str("expected next token to be ");
        msg.append(kind_name(t));
        msg.append(" got ");
        msg.append(kind_name(self.peek_token.token_kind));
        msg.append(" instead");
        self.errors.push(msg);
        proof {
            assert(self.errors@.drop_last() =~= old(self).errors@);
        }
    }

    /// If the lookahead token has the given kind, advances onto it and
    /// reports success; otherwise records a peek error and stays put.
    fn expect_peek(&mut self, t: TokenKind) -> (r: bool)
        requires
            old(self).wf(),
        ensures
            final(self).wf(),
            final(self).spec_input() == old(self).spec_input(),
            r == (old(self).spec_peek().kind == t),
            old(self).spec_pos() <= final(self).spec_pos(),
            r ==> final(self).spec_pos() == next_pos(old(self).spec_input(), old(self).spec_pos())
                && final(self).spec_errors() == old(self).spec_errors(),
            !r ==> final(self).spec_pos() == old(self).spec_pos() && errors_extended(
                old(self).spec_errors(),
                final(self).spec_errors(),
                spec_peek_error_msg(t, old(self).spec_peek().kind),
            ),
    {
        proof {
            lemma_scan_progress(self.spec_input(), self.pos@);
        }
        if self.peek_token_is(t) {
            self.next_token();
            true
        } else {
            self.peek_error(t);
            false
        }
    }

    /// The binding power of the lookahead token.
    fn peek_precedence(&self) -> (p: Precedence)
        requires
            self.wf(),
        ensures
            spec_prec_value(p) == spec_precedence_of(self.spec_peek().kind),
    {
        token_precedence(self.peek_token.token_kind)
    }

    /// The binding power of the current token.
    fn cur_precedence(&self) -> (p: Precedence)
        requires
            self.wf(),
        ensures
            spec_prec_value(p) == spec_precedence_of(self.spec_cur().kind),
    {
        token_precedence(self.cur_token.token_kind)
    }

    /// Records that an expression was expected but the current token has no
    /// prefix parse rule.
    fn no_prefix_parse_error(&mut self)
        requires
            old(self).wf(),
        ensures
            final(self).wf(),
            final(self).spec_input() == old(self).spec_input(),
            final(self).spec_pos() == old(self).spec_pos(),
            errors_extended(
                old(self).spec_errors(),
                final(self).spec_errors(),
                spec_no_prefix_msg(old(self).spec_cur().kind),
            ),
    {
        let mut msg = String::from_str("no prefix parse function for ");
        msg.append(kind_name(self.cur_token.token_kind));
        msg.append(" found");
        self.errors.push(msg);
        proof {
            assert(self.errors@.drop_last() =~= old(self).errors@);
        }
    }

    /// Parses a prefix-operator expression: the operator under the cursor
    /// applied to the expression after it, parsed with `Prefix` binding
    /// power.
    fn parse_prefix_expression(&mut self) -> (r: Option<Expression>)
        requires
            old(self).wf(),
            old(self).spec_cur().kind == TokenKind::Bang || old(self).spec_cur().kind
                == TokenKind::Minus,
        ensures
            final(self).wf(),
            final(self).spec_input() == old(self).spec_input(),
            old(self).spec_pos() <= final(self).spec_pos(),
            match r {
                Some(e) => {
                    &&& (forall|m: int| #[trigger] climb_end(
                        old(self).spec_input(),
                        old(self).spec_pos(),
                        m,
                        expr_view(e),
                    ) == Some::<int>(final(self).spec_pos()))
                    &&& spec_expr_leading_token(e) == old(self).cur_token
                    &&& expr_wf(e)
                    &&& final(self).spec_errors() == old(self).spec_errors()
                },
                None => {
                    &&& one_error_added(old(self).spec_errors(), final(self).spec_errors())
                    &&& (forall|mp: int, e: SpecExpr| #[trigger] climb_end(
                        old(self).spec_input(),
                        old(self).spec_pos(),
                        mp,
                        e,
                    ) is None)
                },
            },
        decreases old(self).spec_input().len() - old(self).spec_pos(), 1int,
    {
        let ghost s = self.spec_input();
        let ghost p0 = self.pos@;
        let tok = self.cur_token.clone();
        let operator = self.cur_token.literal.clone();
        proof {
            lemma_scan_progress(s, p0);
        }
        self.next_token();
        let right = match self.parse_expression(Precedence::Prefix) {
            Some(e) => e,
            None => {
                proof {
                    assert forall|mp: int, e: SpecExpr| #[trigger] climb_end(s, p0, mp, e) is None by {
                        lemma_climb_none_bad_operand(s, p0, mp, e);
                    }
                }
                return None;
            },
        };
        let res = Expression::Prefix(
            PrefixExpression { token: tok, operator, right: Box::new(right) },
        );
        proof {
            assert forall|m: int| #[trigger] climb_end(s, p0, m, expr_view(res)) == Some::<int>(
                self.spec_pos(),
            ) by {
                assert(climb_end(s, next_pos(s, p0), spec_prec_value(Precedence::Prefix), expr_view(right))
                    == Some::<int>(self.spec_pos()));
            }
        }
        Some(res)
    }

    /// Parses an infix expression: the operator under the cursor, `left` as
    /// its left operand, and the expression after it, parsed with the
    /// operator's own binding power, as its right operand.
    fn parse_infix_expression(&mut self, left: Expression) -> (r: Option<Expression>)
        requires
            old(self).wf(),
            spec_precedence_of(old(self).spec_cur().kind) > 0,
            expr_wf(left),
        ensures
            final(self).wf(),
            final(self).spec_input() == old(self).spec_input(),
            old(self).spec_pos() <= final(self).spec_pos(),
            match r {
                Some(e) => ({
                    let s = old(self).spec_input();
                    let opp = old(self).spec_pos();
                    let rstart = next_pos(s, opp);
                    let oprec = spec_precedence_of(old(self).spec_cur().kind);
                    &&& (e matches Expression::Infix(ix) && *ix.left == left && ix.operator@
                        == old(self).spec_cur().literal && climb_end(
                        s,
                        rstart,
                        oprec,
                        expr_view(*ix.right),
                    ) == Some::<int>(final(self).spec_pos()) && climb_stops(
                        s,
                        final(self).spec_pos(),
                        oprec,
                    ))
                    &&& expr_wf(e)
                    &&& final(self).spec_errors() == old(self).spec_errors()
                }),
                None => {
                    &&& one_error_added(old(self).spec_errors(), final(self).spec_errors())
                    &&& (forall|q: int, r2: SpecExpr| !expr_parses(
                        old(self).spec_input(),
                        next_pos(old(self).spec_input(), old(self).spec_pos()),
                        q,
                        spec_precedence_of(old(self).spec_cur().kind),
                        r2,
                    ))
                },
            },
        decreases old(self).spec_input().len() - old(self).spec_pos(), 1int,
    {
        let ghost s = self.spec_input();
        let ghost opp = self.pos@;
        let tok = self.cur_token.clone();
        let operator = self.cur_token.literal.clone();
        let precedence = self.cur_precedence();
        proof {
            lemma_scan_progress(s, opp);
        }
        self.next_token();
        let right = match self.parse_expression(precedence) {
            Some(e) => e,
            None => {
                return None;
            },
        };
        Some(
            Expression::Infix(
                InfixExpression {
                    token: tok,
                    left: Box::new(left),
                    operator,
                    right: Box::new(right),
                },
            ),
        )
    }

    /// The precedence-climbing engine: parses the expression whose first
    /// token is under the cursor, folding in every infix operator that binds
    /// tighter than `precedence`, and leaves the cursor on the expression's
    /// last token.
    fn parse_expression(&mut self, precedence: Precedence) -> (r: Option<Expression>)
        requires
            old(self).wf(),
        ensures
            final(self).wf(),
            final(self).spec_input() == old(self).spec_input(),
            old(self).spec_pos() <= final(self).spec_pos(),
            match r {
                Some(e) => {
                    &&& expr_parses(
                        old(self).spec_input(),
                        old(self).spec_pos(),
                        final(self).spec_pos(),
                        spec_prec_value(precedence),
                        expr_view(e),
                    )
                    &&& spec_expr_leading_token(e) == old(self).cur_token
                    &&& expr_wf(e)
                    &&& final(self).spec_errors() == old(self).spec_errors()
                },
                None => {
                    &&& one_error_added(old(self).spec_errors(), final(self).spec_errors())
                    &&& (forall|q: int, e: SpecExpr| !expr_parses(
                        old(self).spec_input(),
                        old(self).spec_pos(),
                        q,
                        spec_prec_value(precedence),
                        e,
                    ))
                },
            },
        decreases old(self).spec_input().len() - old(self).spec_pos(), 2int,
    {
        let ghost s = self.spec_input();
        let ghost p0 = self.pos@;
        let ghost mp = spec_prec_value(precedence);
        let ghost errs0 = self.spec_errors();
        let ghost tok0 = self.cur_token;
        let mut left: Expression;
        match self.cur_token.token_kind {
            TokenKind::Ident => {
                left = Expression::Identifier(
                    Identifier {
                        token: self.cur_token.clone(),
                        value: self.cur_token.literal.clone(),
                    },
                );
            },
            TokenKind::Int => {
                left = Expression::IntegerLiteral(IntegerLiteral { token: self.cur_token.clone() });
            },
            TokenKind::Bang => {
                match self.parse_prefix_expression() {
                    Some(e) => {
                        left = e;
                    },
                    None => {
                        proof {
                            assert forall|q: int, e: SpecExpr| !expr_parses(s, p0, q, mp, e) by {
                                assert(climb_end(s, p0, mp, e) is None);
                            }
                        }
                        return None;
                    },
                }
            },
            TokenKind::Minus => {
                match self.parse_prefix_expression() {
                    Some(e) => {
                        left = e;
                    },
                    None => {
                        proof {
                            assert forall|q: int, e: SpecExpr| !expr_parses(s, p0, q, mp, e) by {
                                assert(climb_end(s, p0, mp, e) is None);
                            }
                        }
                        return None;
                    },
                }
            },
            _ => {
                self.no_prefix_parse_error();
                proof {
                    assert forall|q: int, e: SpecExpr| !expr_parses(s, p0, q, mp, e) by {
                        lemma_climb_none_without_prefix(s, p0, mp, e);
                    }
                }
                return None;
            },
        }
        assert(climb_end(s, p0, mp, expr_view(left)) == Some::<int>(self.spec_pos()));
        while !self.peek_token_is(TokenKind::Semicolon) && prec_value(precedence) < prec_value(
            self.peek_precedence(),
        )
            invariant
                self.wf(),
                self.spec_input() == s,
                s == old(self).spec_input(),
                p0 == old(self).spec_pos(),
                errs0 == old(self).spec_errors(),
                0 <= p0 <= self.spec_pos() <= s.len(),
                mp == spec_prec_value(precedence),
                expr_wf(left),
                self.spec_errors() == errs0,
                tok0 == old(self).cur_token,
                spec_expr_leading_token(left) == tok0,
                climb_end(s, p0, mp, expr_view(left)) == Some::<int>(self.spec_pos()),
            decreases s.len() - self.spec_pos(),
        {
            let ghost k = self.pos@;
            let ghost lv = expr_view(left);
            proof {
                lemma_scan_progress(s, k);
            }
            self.next_token();
            proof {
                lemma_scan_progress(s, self.pos@);
            }
            let prev = left;
            match self.parse_infix_expression(prev) {
                Some(e) => {
                    left = e;
                },
                None => {
                    proof {
                        lemma_chain_blocked(s, p0, mp, lv, k);
                    }
                    return None;
                },
            }
            proof {
                let opp = next_pos(s, k);
                let k2 = self.spec_pos();
                assert(climb_end(s, p0, mp, expr_view(left)) == Some::<int>(k2));
            }
        }
        proof {
            assert(climb_stops(s, self.spec_pos(), mp));
        }
        Some(left)
    }

    /// Parses `let <name> = <value>`, with an optional trailing semicolon:
    /// expects `Ident` then `Assign` at the lookahead (recording a peek
    /// error and failing otherwise), then the value at lowest precedence.
    fn parse_let_statement(&mut self) -> (r: Option<LetStatement>)
        requires
            old(self).wf(),
            old(self).spec_cur().kind == TokenKind::Let,
        ensures
            final(self).wf(),
            final(self).spec_input() == old(self).spec_input(),
            old(self).spec_pos() <= final(self).spec_pos(),
            match r {
                Some(ls) => {
                    &&& stmt_parses(
                        old(self).spec_input(),
                        old(self).spec_pos(),
                        final(self).spec_pos(),
                        stmt_view(Statement::Let(ls)),
                    )
                    &&& stmt_wf(Statement::Let(ls))
                    &&& final(self).spec_errors() == old(self).spec_errors()
                },
                None => {
                    &&& one_error_added(old(self).spec_errors(), final(self).spec_errors())
                    &&& (forall|st: SpecStmt| #[trigger] stmt_end(
                        old(self).spec_input(),
                        old(self).spec_pos(),
                        st,
                    ) is None)
                    &&& ({
                        let si = old(self).spec_input();
                        let pa = old(self).spec_pos();
                        let pb = next_pos(si, pa);
                        let pc = next_pos(si, pb);
                        &&& (tok_kind_at(si, pa) == TokenKind::Let && tok_kind_at(si, pb)
                            != TokenKind::Ident ==> errors_extended(
                            old(self).spec_errors(),
                            final(self).spec_errors(),
                            spec_peek_error_msg(TokenKind::Ident, tok_kind_at(si, pb)),
                        ))
                        &&& (tok_kind_at(si, pa) == TokenKind::Let && tok_kind_at(si, pb)
                            == TokenKind::Ident && tok_kind_at(si, pc) != TokenKind::Assign
                            ==> errors_extended(
                            old(self).spec_errors(),
                            final(self).spec_errors(),
                            spec_peek_error_msg(TokenKind::Assign, tok_kind_at(si, pc)),
                        ))
                    })
                },
            },
    {
        let ghost s = self.spec_input();
        let ghost p0 = self.pos@;
        proof {
            lemma_keyword_literal(s, p0);
        }
        let tok = self.cur_token.clone();
        if !self.expect_peek(TokenKind::Ident) {
            proof {
                assert(forall|st: SpecStmt| #[trigger] stmt_end(s, p0, st) is None);
            }
            return None;
        }
        let name = Identifier {
            token: self.cur_token.clone(),
            value: self.cur_token.literal.clone(),
        };
        if !self.expect_peek(TokenKind::Assign) {
            proof {
                assert(forall|st: SpecStmt| #[trigger] stmt_end(s, p0, st) is None);
            }
            return None;
        }
        self.next_token();
        let value = match self.parse_expression(Precedence::Lowest) {
            Some(e) => e,
            None => {
                proof {
                    let low = spec_prec_value(Precedence::Lowest);
                    let p3 = next_pos(s, next_pos(s, next_pos(s, p0)));
                    assert forall|st: SpecStmt| #[trigger] stmt_end(s, p0, st) is None by {
                        match st {
                            SpecStmt::Let { name: n2, value: v2 } => {
                                match climb_end(s, p3, low, v2) {
                                    Some(kk) => {
                                        assert(!expr_parses(s, p3, kk, low, v2));
                                    },
                                    None => {},
                                }
                            },
                            _ => {},
                        }
                    }
                }
                return None;
            },
        };
        if self.peek_token_is(TokenKind::Semicolon) {
            self.next_token();
        }
        Some(LetStatement { token: tok, name, value })
    }

    /// Parses `return;` (no value) or `return <value>`, the value at lowest
    /// precedence, with an optional trailing semicolon.
    fn parse_return_statement(&mut self) -> (r: Option<ReturnStatement>)
        requires
            old(self).wf(),
            old(self).spec_cur().kind == TokenKind::Return,
        ensures
            final(self).wf(),
            final(self).spec_input() == old(self).spec_input(),
            old(self).spec_pos() <= final(self).spec_pos(),
            match r {
                Some(rs) => {
                    &&& stmt_parses(
                        old(self).spec_input(),
                        old(self).spec_pos(),
                        final(self).spec_pos(),
                        stmt_view(Statement::Return(rs)),
                    )
                    &&& stmt_wf(Statement::Return(rs))
                    &&& final(self).spec_errors() == old(self).spec_errors()
                },
                None => {
                    &&& one_error_added(old(self).spec_errors(), final(self).spec_errors())
                    &&& (forall|st: SpecStmt| #[trigger] stmt_end(
                        old(self).spec_input(),
                        old(self).spec_pos(),
                        st,
                    ) is None)
                },
            },
    {
        let ghost s = self.spec_input();
        let ghost p0 = self.pos@;
        proof {
            lemma_keyword_literal(s, p0);
        }
        let tok = self.cur_token.clone();
        if self.peek_token_is(TokenKind::Semicolon) {
            self.next_token();
            return Some(ReturnStatement { token: tok, return_value: None });
        }
        self.next_token();
        let value = match self.parse_expression(Precedence::Lowest) {
            Some(e) => e,
            None => {
                proof {
                    let low = spec_prec_value(Precedence::Lowest);
                    let p1 = next_pos(s, p0);
                    assert forall|st: SpecStmt| #[trigger] stmt_end(s, p0, st) is None by {
                        match st {
                            SpecStmt::Return { ret } => {
                                match ret {
                                    Some(v2) => {
                                        match climb_end(s, p1, low, v2) {
                                            Some(kk) => {
                                                assert(!expr_parses(s, p1, kk, low, v2));
                                            },
                                            None => {},
                                        }
                                    },
                                    None => {},
                                }
                            },
                            _ => {},
                        }
                    }
                }
                return None;
            },
        };
        if self.peek_token_is(TokenKind::Semicolon) {
            self.next_token();
        }
        Some(ReturnStatement { token: tok, return_value: Some(value) })
    }

    /// Parses one expression at lowest precedence as a whole statement,
    /// with an optional trailing semicolon.
    fn parse_expression_statement(&mut self) -> (r: Option<ExpressionStatement>)
        requires
            old(self).wf(),
            old(self).spec_cur().kind != TokenKind::Let,
            old(self).spec_cur().kind != TokenKind::Return,
        ensures
            final(self).wf(),
            final(self).spec_input() == old(self).spec_input(),
            old(self).spec_pos() <= final(self).spec_pos(),
            match r {
                Some(es) => {
                    &&& stmt_parses(
                        old(self).spec_input(),
                        old(self).spec_pos(),
                        final(self).spec_pos(),
                        stmt_view(Statement::Expression(es)),
                    )
                    &&& stmt_wf(Statement::Expression(es))
                    &&& final(self).spec_errors() == old(self).spec_errors()
                },
                None => {
                    &&& one_error_added(old(self).spec_errors(), final(self).spec_errors())
                    &&& (forall|st: SpecStmt| #[trigger] stmt_end(
                        old(self).spec_input(),
                        old(self).spec_pos(),
                        st,
                    ) is None)
                },
            },
    {
        let ghost s = self.spec_input();
        let ghost p0 = self.pos@;
        let tok = self.cur_token.clone();
        let expression = match self.parse_expression(Precedence::Lowest) {
            Some(e) => e,
            None => {
                proof {
                    let low = spec_prec_value(Precedence::Lowest);
                    assert forall|st: SpecStmt| #[trigger] stmt_end(s, p0, st) is None by {
                        match st {
                            SpecStmt::Expr { value: v2 } => {
                                match climb_end(s, p0, low, v2) {
                                    Some(kk) => {
                                        assert(!expr_parses(s, p0, kk, low, v2));
                                    },
                                    None => {},
                                }
                            },
                            _ => {},
                        }
                    }
                }
                return None;
            },
        };
        if self.peek_token_is(TokenKind::Semicolon) {
            self.next_token();
        }
        Some(ExpressionStatement { token: tok, expression })
    }

    /// Dispatches on the current token: `Let` and `Return` begin their
    /// statement forms; anything else begins an expression statement.
    fn parse_statement(&mut self) -> (r: Option<Statement>)
        requires
            old(self).wf(),
        ensures
            final(self).wf(),
            final(self).spec_input() == old(self).spec_input(),
            old(self).spec_pos() <= final(self).spec_pos(),
            match r {
                Some(st) => {
                    &&& stmt_parses(
                        old(self).spec_input(),
                        old(self).spec_pos(),
                        final(self).spec_pos(),
                        stmt_view(st),
                    )
                    &&& stmt_wf(st)
                    &&& final(self).spec_errors() == old(self).spec_errors()
                },
                None => {
                    &&& one_error_added(old(self).spec_errors(), final(self).spec_errors())
                    &&& (forall|st: SpecStmt| #[trigger] stmt_end(
                        old(self).spec_input(),
                        old(self).spec_pos(),
                        st,
                    ) is None)
                    &&& ({
                        let si = old(self).spec_input();
                        let pa = old(self).spec_pos();
                        let pb = next_pos(si, pa);
                        let pc = next_pos(si, pb);
                        &&& (tok_kind_at(si, pa) == TokenKind::Let && tok_kind_at(si, pb)
                            != TokenKind::Ident ==> errors_extended(
                            old(self).spec_errors(),
                            final(self).spec_errors(),
                            spec_peek_error_msg(TokenKind::Ident, tok_kind_at(si, pb)),
                        ))
                        &&& (tok_kind_at(si, pa) == TokenKind::Let && tok_kind_at(si, pb)
                            == TokenKind::Ident && tok_kind_at(si, pc) != TokenKind::Assign
                            ==> errors_extended(
                            old(self).spec_errors(),
                            final(self).spec_errors(),
                            spec_peek_error_msg(TokenKind::Assign, tok_kind_at(si, pc)),
                        ))
                    })
                },
            },
    {
        match self.cur_token.token_kind {
            TokenKind::Let => match self.parse_let_statement() {
                Some(ls) => Some(Statement::Let(ls)),
                None => None,
            },
            TokenKind::Return => match self.parse_return_statement() {
                Some(rs) => Some(Statement::Return(rs)),
                None => None,
            },
            _ => match self.parse_expression_statement() {
                Some(es) => Some(Statement::Expression(es)),
                None => None,
            },
        }
    }

    /// Parses statements until the current token is `Eof`, advancing once
    /// between statements. A statement that fails to parse aborts the whole
    /// program parse: the recorded errors are then the way to learn what
    /// went wrong, and no program is returned.
    pub fn parse_program(&mut self) -> (r: Option<Program>)
        requires
            old(self).wf(),
        ensures
            final(self).wf(),
            final(self).spec_input() == old(self).spec_input(),
            match r {
                Some(prog) => {
                    &&& stmts_parse(
                        old(self).spec_input(),
                        old(self).spec_pos(),
                        final(self).spec_pos(),
                        prog.statements@.map_values(|st: Statement| stmt_view(st)),
                    )
                    &&& (forall|i: int| 0 <= i < prog.statements@.len() ==> stmt_wf(
                        #[trigger] prog.statements@[i],
                    ))
                    &&& final(self).spec_errors() == old(self).spec_errors()
                },
                None => {
                    &&& one_error_added(old(self).spec_errors(), final(self).spec_errors())
                    &&& (forall|q: int, sts: Seq<SpecStmt>| !stmts_parse(
                        old(self).spec_input(),
                        old(self).spec_pos(),
                        q,
                        sts,
                    ))
                    &&& ({
                        let si = old(self).spec_input();
                        let pa = old(self).spec_pos();
                        let pb = next_pos(si, pa);
                        let pc = next_pos(si, pb);
                        &&& (tok_kind_at(si, pa) == TokenKind::Let && tok_kind_at(si, pb)
                            != TokenKind::Ident ==> errors_extended(
                            old(self).spec_errors(),
                            final(self).spec_errors(),
                            spec_peek_error_msg(TokenKind::Ident, tok_kind_at(si, pb)),
                        ))
                        &&& (tok_kind_at(si, pa) == TokenKind::Let && tok_kind_at(si, pb)
                            == TokenKind::Ident && tok_kind_at(si, pc) != TokenKind::Assign
                            ==> errors_extended(
                            old(self).spec_errors(),
                            final(self).spec_errors(),
                            spec_peek_error_msg(TokenKind::Assign, tok_kind_at(si, pc)),
                        ))
                    })
                },
            },
    {
        let ghost s = self.spec_input();
        let ghost p0 = self.pos@;
        let ghost errs0 = self.spec_errors();
        let mut statements: Vec<Statement> = Vec::new();
        while !self.cur_token_is(TokenKind::Eof)
            invariant
                self.wf(),
                self.spec_input() == s,
                s == old(self).spec_input(),
                p0 == old(self).spec_pos(),
                errs0 == old(self).spec_errors(),
                self.spec_errors() == errs0,
                0 <= p0 <= self.spec_pos() <= s.len(),
                forall|i: int| 0 <= i < statements@.len() ==> stmt_wf(#[trigger] statements@[i]),
                forall|q: int, rest: Seq<SpecStmt>|
                    #[trigger] stmts_parse(s, self.spec_pos(), q, rest) ==> stmts_parse(
                        s,
                        p0,
                        q,
                        statements@.map_values(|st: Statement| stmt_view(st)) + rest,
                    ),
                forall|q: int, sts: Seq<SpecStmt>|
                    #[trigger] stmts_parse(s, p0, q, sts) ==> (exists|rest: Seq<SpecStmt>|
                        stmts_parse(s, self.spec_pos(), q, rest)),
                statements@.len() == 0 ==> self.spec_pos() == p0,
                statements@.len() > 0 ==> (exists|st: SpecStmt, k: int| stmt_end(s, p0, st)
                    == Some::<int>(k)),
            decreases s.len() - self.spec_pos(),
        {
            let ghost pi = self.pos@;
            let ghost old_views = statements@.map_values(|st: Statement| stmt_view(st));
            let stmt = match self.parse_statement() {
                Some(st) => st,
                None => {
                    proof {
                        assert forall|qq: int, sts: Seq<SpecStmt>| !stmts_parse(s, p0, qq, sts) by {
                            if stmts_parse(s, p0, qq, sts) {
                                let rest0 = choose|rest0: Seq<SpecStmt>|
                                    stmts_parse(s, pi, qq, rest0);
                                if rest0.len() > 0 {
                                    assert(stmt_end(s, pi, rest0[0]) is None);
                                }
                                assert(false);
                            }
                        }
                        let pb = next_pos(s, p0);
                        let pc = next_pos(s, pb);
                        if tok_kind_at(s, p0) == TokenKind::Let && (tok_kind_at(s, pb)
                            != TokenKind::Ident || tok_kind_at(s, pc) != TokenKind::Assign) {
                            assert(forall|st: SpecStmt| #[trigger] stmt_end(s, p0, st) is None);
                            assert(statements@.len() == 0);
                        }
                    }
                    return None;
                },
            };
            let ghost q = self.pos@;
            let ghost v = stmt_view(stmt);
            proof {
                if statements@.len() == 0 {
                    assert(stmt_end(s, p0, v) == Some::<int>(q));
                }
            }
            statements.push(stmt);
            proof {
                lemma_scan_progress(s, pi);
                lemma_scan_progress(s, q);
            }
            self.next_token();
            proof {
                assert forall|qq: int, sts: Seq<SpecStmt>|
                    #[trigger] stmts_parse(s, p0, qq, sts) implies (exists|rest: Seq<SpecStmt>|
                    stmts_parse(s, self.spec_pos(), qq, rest)) by {
                    let rest0 = choose|rest0: Seq<SpecStmt>| stmts_parse(s, pi, qq, rest0);
                    if rest0.len() == 0 {
                        assert(false);
                    } else {
                        let k0 = stmt_end(s, pi, rest0[0])->0;
                        lemma_stmt_end_unique(s, pi, v, q, rest0[0], k0);
                        assert(stmts_parse(s, next_pos(s, k0), qq, rest0.drop_first()));
                    }
                }
                assert(statements@.map_values(|st: Statement| stmt_view(st)) =~= old_views.push(v));
                assert forall|qq: int, rest: Seq<SpecStmt>|
                    #[trigger] stmts_parse(s, self.spec_pos(), qq, rest) implies stmts_parse(
                    s,
                    p0,
                    qq,
                    statements@.map_values(|st: Statement| stmt_view(st)) + rest,
                ) by {
                    let with_v = seq![v] + rest;
                    assert(with_v[0] == v);
                    assert(with_v.drop_first() =~= rest);
                    assert(stmts_parse(s, pi, qq, with_v));
                    assert(old_views + with_v =~= old_views.push(v) + rest);
                }
            }
        }
        proof {
            assert(stmts_parse(s, self.spec_pos(), self.spec_pos(), Seq::<SpecStmt>::empty()));
            assert(statements@.map_values(|st: Statement| stmt_view(st)) + Seq::<SpecStmt>::empty()
                =~= statements@.map_values(|st: Statement| stmt_view(st)));
        }
        Some(Program { statements })
    }
}
} // verus!
