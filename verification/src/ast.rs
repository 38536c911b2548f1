//! The AST model: statement and expression nodes as sum types, the `Node`
//! capability (originating token literal and canonical textual
//! reconstruction), and spec-level views of whole trees.

use vstd::prelude::*;
use vstd::string::StringExecFns;

use crate::token::Token;
use crate::token::TokenKind;

verus! {

/// Every node reports the literal text of its leading token and a canonical
/// reconstruction of its source text, each pinned to a spec-level image.
pub trait Node {
    /// The characters of the leading token's literal.
    spec fn spec_token_literal(&self) -> Seq<char>;

    /// The characters of the canonical reconstruction.
    spec fn spec_string(&self) -> Seq<char>;

    /// The literal text of the node's leading token.
    fn token_literal(&self) -> (r: String)
        ensures
            r@ == self.spec_token_literal(),
    ;

    /// The minimal source text that re-parses to an equivalent tree; it
    /// depends only on token kinds and stored literals, never on the
    /// original formatting.
    fn string(&self) -> (r: String)
        ensures
            r@ == self.spec_string(),
    ;
}

/// A leaf expression holding a bound or referenced name.
pub struct Identifier {
    pub token: Token,
    pub value: String,
}

/// A leaf expression holding the verbatim text of a digit run; numeric
/// conversion is deferred to the consumer of the tree.
pub struct IntegerLiteral {
    pub token: Token,
}

/// A unary operator applied in front of an operand.
pub struct PrefixExpression {
    pub token: Token,
    pub operator: String,
    pub right: Box<Expression>,
}

/// A binary operator between two operands.
pub struct InfixExpression {
    pub token: Token,
    pub left: Box<Expression>,
    pub operator: String,
    pub right: Box<Expression>,
}

/// The closed set of expression nodes.
pub enum Expression {
    Identifier(Identifier),
    IntegerLiteral(IntegerLiteral),
    Prefix(PrefixExpression),
    Infix(InfixExpression),
}

/// `let <name> = <value>;` — the name must have been scanned as `Ident`, and
/// the statement exists only once both fields are populated.
pub struct LetStatement {
    pub token: Token,
    pub name: Identifier,
    pub value: Expression,
}

/// `return;` or `return <value>;`.
pub struct ReturnStatement {
    pub token: Token,
    pub return_value: Option<Expression>,
}

/// A whole statement made of a single expression.
pub struct ExpressionStatement {
    pub token: Token,
    pub expression: Expression,
}

/// The closed set of statement nodes.
pub enum Statement {
    Let(LetStatement),
    Return(ReturnStatement),
    Expression(ExpressionStatement),
}

/// The parse root: an ordered sequence of statements, in source order. A
/// program with zero statements is valid and stands for empty or fully
/// failed input.
pub struct Program {
    pub statements: Vec<Statement>,
}

/// The spec-level image of an expression tree: each node reduced to its
/// operator or literal text and its children.
pub ghost enum SpecExpr {
    Ident { name: Seq<char> },
    Int { text: Seq<char> },
    Prefix { op: Seq<char>, right: Box<SpecExpr> },
    Infix { left: Box<SpecExpr>, op: Seq<char>, right: Box<SpecExpr> },
}

/// The spec-level image of a statement.
pub ghost enum SpecStmt {
    Let { name: Seq<char>, value: SpecExpr },
    Return { ret: Option<SpecExpr> },
    Expr { value: SpecExpr },
}

/// The image of an expression tree.
pub open spec fn expr_view(e: Expression) -> SpecExpr
    decreases e,
{
    match e {
        Expression::Identifier(id) => SpecExpr::Ident { name: id.value@ },
        Expression::IntegerLiteral(il) => SpecExpr::Int { text: il.token.literal@ },
        Expression::Prefix(p) => SpecExpr::Prefix {
            op: p.operator@,
            right: Box::new(expr_view(*p.right)),
        },
        Expression::Infix(i) => SpecExpr::Infix {
            left: Box::new(expr_view(*i.left)),
            op: i.operator@,
            right: Box::new(expr_view(*i.right)),
        },
    }
}

/// The image of a statement.
pub open spec fn stmt_view(st: Statement) -> SpecStmt {
    match st {
        Statement::Let(ls) => SpecStmt::Let {
            name: ls.name.value@,
            value: expr_view(ls.value),
        },
        Statement::Return(rs) => SpecStmt::Return {
            ret: match rs.return_value {
                Some(e) => Some(expr_view(e)),
                None => None,
            },
        },
        Statement::Expression(es) => SpecStmt::Expr { value: expr_view(es.expression) },
    }
}

/// Consistency of an expression node with the tokens it was built from: each
/// leaf and operator carries the literal of its own token.
pub open spec fn expr_wf(e: Expression) -> bool
    decreases e,
{
    match e {
        Expression::Identifier(id) => id.token.token_kind == TokenKind::Ident && id.value@
            == id.token.literal@,
        Expression::IntegerLiteral(il) => il.token.token_kind == TokenKind::Int,
        Expression::Prefix(p) => (p.token.token_kind == TokenKind::Bang || p.token.token_kind
            == TokenKind::Minus) && p.operator@ == p.token.literal@ && expr_wf(*p.right),
        Expression::Infix(i) => i.operator@ == i.token.literal@ && expr_wf(*i.left) && expr_wf(
            *i.right,
        ),
    }
}

/// The token an expression leads with: its own token for leaves and for
/// prefix operators, the left operand's leading token for an infix node.
pub open spec fn spec_expr_leading_token(e: Expression) -> Token
    decreases e,
{
    match e {
        Expression::Identifier(id) => id.token,
        Expression::IntegerLiteral(il) => il.token,
        Expression::Prefix(p) => p.token,
        Expression::Infix(i) => spec_expr_leading_token(*i.left),
    }
}

/// Consistency of a statement with the tokens it was built from.
pub open spec fn stmt_wf(st: Statement) -> bool {
    match st {
        Statement::Let(ls) => ls.token.token_kind == TokenKind::Let && ls.token.literal@ == "let"@
            && ls.name.token.token_kind == TokenKind::Ident && ls.name.value@
            == ls.name.token.literal@ && expr_wf(ls.value),
        Statement::Return(rs) => rs.token.token_kind == TokenKind::Return && rs.token.literal@
            == "return"@ && (rs.return_value matches Some(e) ==> expr_wf(e)),
        Statement::Expression(es) => es.token == spec_expr_leading_token(es.expression)
            && expr_wf(es.expression),
    }
}

/// The canonical reconstruction of an expression: leaves print their text,
/// prefix and infix nodes print fully parenthesized.
pub open spec fn spec_expr_string(e: Expression) -> Seq<char>
    decreases e,
{
    match e {
        Expression::Identifier(id) => id.value@,
        Expression::IntegerLiteral(il) => il.token.literal@,
        Expression::Prefix(p) => "("@ + p.operator@ + spec_expr_string(*p.right) + ")"@,
        Expression::Infix(i) => "("@ + spec_expr_string(*i.left) + " "@ + i.operator@ + " "@
            + spec_expr_string(*i.right) + ")"@,
    }
}

/// The canonical reconstruction of a statement.
pub open spec fn spec_stmt_string(st: Statement) -> Seq<char> {
    match st {
        Statement::Let(ls) => ls.token.literal@ + " "@ + ls.name.value@ + " = "@
            + spec_expr_string(ls.value) + ";"@,
        Statement::Return(rs) => match rs.return_value {
            Some(e) => rs.token.literal@ + " "@ + spec_expr_string(e) + ";"@,
            None => rs.token.literal@ + ";"@,
        },
        Statement::Expression(es) => spec_expr_string(es.expression),
    }
}

/// The reconstructions of the statements from index `i` on, concatenated.
pub open spec fn spec_stmts_string_from(ss: Seq<Statement>, i: int) -> Seq<char>
    decreases ss.len() - i,
{
    if 0 <= i < ss.len() {
        spec_stmt_string(ss[i]) + spec_stmts_string_from(ss, i + 1)
    } else {
        Seq::empty()
    }
}

/// The canonical reconstruction of an expression tree.
pub fn expr_string(e: &Expression) -> (r: String)
    ensures
        r@ == spec_expr_string(*e),
    decreases *e,
{
    match e {
        Expression::Identifier(id) => id.value.clone(),
        Expression::IntegerLiteral(il) => il.token.literal.clone(),
        Expression::Prefix(p) => {
            let mut out = String::from_str("(");
            out.append(p.operator.as_str());
            let rs = expr_string(&*p.right);
            out.append(rs.as_str());
            out.append(")");
            out
        },
        Expression::Infix(i) => {
            let mut out = String::from_str("(");
            let ls = expr_string(&*i.left);
            out.append(ls.as_str());
            out.append(" ");
            out.append(i.operator.as_str());
            out.append(" ");
            let rs = expr_string(&*i.right);
            out.append(rs.as_str());
            out.append(")");
            out
        },
    }
}

impl Node for Identifier {
    open spec fn spec_token_literal(&self) -> Seq<char> {
        self.token.literal@
    }

    open spec fn spec_string(&self) -> Seq<char> {
        self.value@
    }

    fn token_literal(&self) -> (r: String) {
        self.token.literal.clone()
    }

    fn string(&self) -> (r: String) {
        self.value.clone()
    }
}

impl Node for IntegerLiteral {
    open spec fn spec_token_literal(&self) -> Seq<char> {
        self.token.literal@
    }

    open spec fn spec_string(&self) -> Seq<char> {
        self.token.literal@
    }

    fn token_literal(&self) -> (r: String) {
        self.token.literal.clone()
    }

    fn string(&self) -> (r: String) {
        self.token.literal.clone()
    }
}

impl Node for PrefixExpression {
    open spec fn spec_token_literal(&self) -> Seq<char> {
        self.token.literal@
    }

    open spec fn spec_string(&self) -> Seq<char> {
        "("@ + self.operator@ + spec_expr_string(*self.right) + ")"@
    }

    fn token_literal(&self) -> (r: String) {
        self.token.literal.clone()
    }

    fn string(&self) -> (r: String) {
        let mut out = String::from_str("(");
        out.append(self.operator.as_str());
        let rs = expr_string(&*self.right);
        out.append(rs.as_str());
        out.append(")");
        out
    }
}

impl Node for InfixExpression {
    open spec fn spec_token_literal(&self) -> Seq<char> {
        self.token.literal@
    }

    open spec fn spec_string(&self) -> Seq<char> {
        "("@ + spec_expr_string(*self.left) + " "@ + self.operator@ + " "@ + spec_expr_string(
            *self.right,
        ) + ")"@
    }

    fn token_literal(&self) -> (r: String) {
        self.token.literal.clone()
    }

    fn string(&self) -> (r: String) {
        let mut out = String::from_str("(");
        let ls = expr_string(&*self.left);
        out.append(ls.as_str());
        out.append(" ");
        out.append(self.operator.as_str());
        out.append(" ");
        let rs = expr_string(&*self.right);
        out.append(rs.as_str());
        out.append(")");
        out
    }
}

impl Node for Expression {
    open spec fn spec_token_literal(&self) -> Seq<char> {
        match *self {
            Expression::Identifier(id) => id.token.literal@,
            Expression::IntegerLiteral(il) => il.token.literal@,
            Expression::Prefix(p) => p.token.literal@,
            Expression::Infix(i) => i.token.literal@,
        }
    }

    open spec fn spec_string(&self) -> Seq<char> {
        spec_expr_string(*self)
    }

    fn token_literal(&self) -> (r: String) {
        match self {
            Expression::Identifier(id) => id.token.literal.clone(),
            Expression::IntegerLiteral(il) => il.token.literal.clone(),
            Expression::Prefix(p) => p.token.literal.clone(),
            Expression::Infix(i) => i.token.literal.clone(),
        }
    }

    fn string(&self) -> (r: String) {
        expr_string(self)
    }
}

impl Node for LetStatement {
    open spec fn spec_token_literal(&self) -> Seq<char> {
        self.token.literal@
    }

    open spec fn spec_string(&self) -> Seq<char> {
        self.token.literal@ + " "@ + self.name.value@ + " = "@ + spec_expr_string(self.value)
            + ";"@
    }

    fn token_literal(&self) -> (r: String) {
        self.token.literal.clone()
    }

    fn string(&self) -> (r: String) {
        let mut out = self.token.literal.clone();
        out.append(" ");
        out.append(self.name.value.as_str());
        out.append(" = ");
        let vs = expr_string(&self.value);
        out.append(vs.as_str());
        out.append(";");
        out
    }
}

impl Node for ReturnStatement {
    open spec fn spec_token_literal(&self) -> Seq<char> {
        self.token.literal@
    }

    open spec fn spec_string(&self) -> Seq<char> {
        match self.return_value {
            Some(e) => self.token.literal@ + " "@ + spec_expr_string(e) + ";"@,
            None => self.token.literal@ + ";"@,
        }
    }

    fn token_literal(&self) -> (r: String) {
        self.token.literal.clone()
    }

    fn string(&self) -> (r: String) {
        let mut out = self.token.literal.clone();
        match &self.return_value {
            Some(e) => {
                out.append(" ");
                let vs = expr_string(e);
                out.append(vs.as_str());
            },
            None => {},
        }
        out.append(";");
        out
    }
}

impl Node for ExpressionStatement {
    open spec fn spec_token_literal(&self) -> Seq<char> {
        self.token.literal@
    }

    open spec fn spec_string(&self) -> Seq<char> {
        spec_expr_string(self.expression)
    }

    fn token_literal(&self) -> (r: String) {
        self.token.literal.clone()
    }

    fn string(&self) -> (r: String) {
        expr_string(&self.expression)
    }
}

impl Node for Statement {
    open spec fn spec_token_literal(&self) -> Seq<char> {
        match *self {
            Statement::Let(ls) => ls.token.literal@,
            Statement::Return(rs) => rs.token.literal@,
            Statement::Expression(es) => es.token.literal@,
        }
    }

    open spec fn spec_string(&self) -> Seq<char> {
        spec_stmt_string(*self)
    }

    fn token_literal(&self) -> (r: String) {
        match self {
            Statement::Let(ls) => ls.token.literal.clone(),
            Statement::Return(rs) => rs.token.literal.clone(),
            Statement::Expression(es) => es.token.literal.clone(),
        }
    }

    fn string(&self) -> (r: String) {
        match self {
            Statement::Let(ls) => ls.string(),
            Statement::Return(rs) => rs.string(),
            Statement::Expression(es) => es.string(),
        }
    }
}

impl Node for Program {
    open spec fn spec_token_literal(&self) -> Seq<char> {
        if self.statements@.len() > 0 {
            self.statements@[0].spec_token_literal()
        } else {
            Seq::empty()
        }
    }

    open spec fn spec_string(&self) -> Seq<char> {
        spec_stmts_string_from(self.statements@, 0)
    }

    fn token_literal(&self) -> (r: String) {
        if self.statements.len() > 0 {
            self.statements[0].token_literal()
        } else {
            String::new()
        }
    }

    fn string(&self) -> (r: String) {
        let mut out = String::new();
        let mut i: usize = 0;
        while i < self.statements.len()
            invariant
                i <= self.statements@.len(),
                out@ + spec_stmts_string_from(self.statements@, i as int) == spec_stmts_string_from(
                    self.statements@,
                    0,
                ),
            decreases self.statements@.len() - i,
        {
            let s = self.statements[i].string();
            proof {
                assert((out@ + s@) + spec_stmts_string_from(self.statements@, i + 1)
                    =~= out@ + spec_stmts_string_from(self.statements@, i as int));
            }
            out.append(s.as_str());
            i = i + 1;
        }
        proof {
            assert(out@ + spec_stmts_string_from(self.statements@, i as int) =~= out@);
        }
        out
    }
}

} // verus!
