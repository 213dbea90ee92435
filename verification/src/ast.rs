//! The abstract syntax tree: statement and expression variants, each a strict
//! tree that owns its children, plus the canonical fully parenthesized
//! textual rendering of every node.
//!
//! Each executable node type has a ghost mirror (`SExpr`, `SStmt`, ...) used
//! by the parser's and the evaluator's specifications, reached through the
//! view functions below.

use vstd::prelude::*;

use crate::token::{SToken, Token};

verus! {

// ---------------------------------------------------------------------------
// Executable syntax tree
// ---------------------------------------------------------------------------

#[derive(Debug)]
pub enum StatementNode {
    Say(SayStatement),
    Return(ReturnStatement),
    Expression(ExpressionStatement),
    Block(BlockStatement),
}

#[derive(Debug)]
pub enum ExpressionNode {
    Empty,
    IdentifierNode(Identifier),
    Integer(IntegerLiteral),
    Prefix(PrefixExpression),
    Infix(InfixExpression),
    BooleanNode(Boolean),
    IfExpressionNode(IfExpression),
    Function(FunctionLiteral),
    Call(CallExpression),
    StringExp(StringLiteral),
    Array(ArrayLiteral),
    Index(IndexExpression),
    Dictionary(DictLiteral),
}

/// An ordered sequence of top-level statements.
pub struct Program {
    pub statements: Vec<StatementNode>,
}

/// Binding declaration: `say <identifier> = <expression>;`.
#[derive(Debug)]
pub struct SayStatement {
    pub token: Token,
    pub name: Identifier,
    pub value: Option<ExpressionNode>,
}

#[derive(Debug)]
pub struct Identifier {
    pub token: Token,
    pub value: String,
}

/// `return <expression>?;`
#[derive(Debug)]
pub struct ReturnStatement {
    pub token: Token,
    pub return_value: Option<ExpressionNode>,
}

/// A bare expression in statement position.
#[derive(Debug)]
pub struct ExpressionStatement {
    pub token: Token,
    pub expression: Option<ExpressionNode>,
}

#[derive(Debug)]
pub struct IntegerLiteral {
    pub token: Token,
    pub value: i64,
}

/// `<op><right>` where `<op>` is `-` or `!`.
#[derive(Debug)]
pub struct PrefixExpression {
    pub token: Token,
    pub operator: String,
    pub right: Box<ExpressionNode>,
}

#[derive(Debug)]
pub struct Boolean {
    pub token: Token,
    pub value: bool,
}

/// `<left> <op> <right>`; the tree shape already encodes precedence.
#[derive(Debug)]
pub struct InfixExpression {
    pub token: Token,
    pub left: Box<ExpressionNode>,
    pub operator: String,
    pub right: Box<ExpressionNode>,
}

/// `if (<condition>) { <consequence> }` with an optional `else` block.
#[derive(Debug)]
pub struct IfExpression {
    pub token: Token,
    pub condition: Box<ExpressionNode>,
    pub consequence: BlockStatement,
    pub alternative: Option<BlockStatement>,
}

/// `function(<parameters>) { <body> }`
#[derive(Debug)]
pub struct FunctionLiteral {
    pub token: Token,
    pub parameters: Vec<Identifier>,
    pub body: BlockStatement,
}

/// `<function>(<arguments>)`
#[derive(Debug)]
pub struct CallExpression {
    pub token: Token,
    pub function: Box<ExpressionNode>,
    pub arguments: Vec<ExpressionNode>,
}

/// `{ <statements> }`; blocks do not introduce a scope of their own.
#[derive(Debug)]
pub struct BlockStatement {
    pub token: Token,
    pub statements: Vec<StatementNode>,
}

#[derive(Debug)]
pub struct StringLiteral {
    pub token: Token,
    pub value: String,
}

/// `[<elements>]`
#[derive(Debug)]
pub struct ArrayLiteral {
    pub token: Token,
    pub elements: Vec<ExpressionNode>,
}

/// `<left>[<index>]`
#[derive(Debug)]
pub struct IndexExpression {
    pub token: Token,
    pub left: Box<ExpressionNode>,
    pub index: Box<ExpressionNode>,
}

/// `{ <key>:<value>, ... }` as written; keys are normalized at evaluation.
#[derive(Debug)]
pub struct HashLiteral {
    pub token: Token,
    pub pairs: Vec<(ExpressionNode, ExpressionNode)>,
}

/// The dictionary literal consumed by the evaluator; same shape as
/// [`HashLiteral`], which is kept as the parser-facing alias of the form.
#[derive(Debug)]
pub struct DictLiteral {
    pub token: Token,
    pub pairs: Vec<(ExpressionNode, ExpressionNode)>,
}

// ---------------------------------------------------------------------------
// Ghost mirror of the syntax tree
// ---------------------------------------------------------------------------

pub enum SStmt {
    Say(SSay),
    Return(SReturn),
    Expression(SExprStmt),
    Block(SBlock),
}

pub enum SExpr {
    Empty,
    Ident(SIdent),
    Int(SInt),
    Prefix(SPrefix),
    Infix(SInfix),
    Bool(SBool),
    If(SIf),
    Function(SFnLit),
    Call(SCall),
    Str(SStrLit),
    Array(SArray),
    Index(SIndex),
    Dict(SDict),
}

pub struct SProgram {
    pub statements: Seq<SStmt>,
}

pub struct SSay {
    pub token: SToken,
    pub name: SIdent,
    pub value: Option<SExpr>,
}

pub struct SIdent {
    pub token: SToken,
    pub value: Seq<char>,
}

pub struct SReturn {
    pub token: SToken,
    pub return_value: Option<SExpr>,
}

pub struct SExprStmt {
    pub token: SToken,
    pub expression: Option<SExpr>,
}

pub struct SInt {
    pub token: SToken,
    pub value: i64,
}

pub struct SPrefix {
    pub token: SToken,
    pub operator: Seq<char>,
    pub right: Box<SExpr>,
}

pub struct SInfix {
    pub token: SToken,
    pub left: Box<SExpr>,
    pub operator: Seq<char>,
    pub right: Box<SExpr>,
}

pub struct SBool {
    pub token: SToken,
    pub value: bool,
}

pub struct SIf {
    pub token: SToken,
    pub condition: Box<SExpr>,
    pub consequence: SBlock,
    pub alternative: Option<SBlock>,
}

pub struct SFnLit {
    pub token: SToken,
    pub parameters: Seq<SIdent>,
    pub body: SBlock,
}

pub struct SCall {
    pub token: SToken,
    pub function: Box<SExpr>,
    pub arguments: Seq<SExpr>,
}

pub struct SStrLit {
    pub token: SToken,
    pub value: Seq<char>,
}

pub struct SArray {
    pub token: SToken,
    pub elements: Seq<SExpr>,
}

pub struct SIndex {
    pub token: SToken,
    pub left: Box<SExpr>,
    pub index: Box<SExpr>,
}

pub struct SDict {
    pub token: SToken,
    pub pairs: Seq<(SExpr, SExpr)>,
}

pub struct SBlock {
    pub token: SToken,
    pub statements: Seq<SStmt>,
}

// ---------------------------------------------------------------------------
// Views
// ---------------------------------------------------------------------------

pub open spec fn ident_view(i: Identifier) -> SIdent {
    SIdent { token: i.token@, value: i.value@ }
}

pub open spec fn idents_view(v: Seq<Identifier>) -> Seq<SIdent>
    decreases v.len(),
{
    if v.len() == 0 {
        Seq::empty()
    } else {
        idents_view(v.drop_last()).push(ident_view(v.last()))
    }
}

#[verifier::opaque]
pub open spec fn expr_view(e: ExpressionNode) -> SExpr
    decreases e,
{
    match e {
        ExpressionNode::Empty => SExpr::Empty,
        ExpressionNode::IdentifierNode(i) => SExpr::Ident(ident_view(i)),
        ExpressionNode::Integer(n) => SExpr::Int(SInt { token: n.token@, value: n.value }),
        ExpressionNode::Prefix(p) => SExpr::Prefix(
            SPrefix {
                token: p.token@,
                operator: p.operator@,
                right: Box::new(expr_view(*p.right)),
            },
        ),
        ExpressionNode::Infix(p) => SExpr::Infix(
            SInfix {
                token: p.token@,
                left: Box::new(expr_view(*p.left)),
                operator: p.operator@,
                right: Box::new(expr_view(*p.right)),
            },
        ),
        ExpressionNode::BooleanNode(b) => SExpr::Bool(SBool { token: b.token@, value: b.value }),
        ExpressionNode::IfExpressionNode(f) => SExpr::If(
            SIf {
                token: f.token@,
                condition: Box::new(expr_view(*f.condition)),
                consequence: block_view(f.consequence),
                alternative: match f.alternative {
                    Option::Some(b) => Option::Some(block_view(b)),
                    Option::None => Option::None,
                },
            },
        ),
        ExpressionNode::Function(f) => SExpr::Function(
            SFnLit {
                token: f.token@,
                parameters: idents_view(f.parameters@),
                body: block_view(f.body),
            },
        ),
        ExpressionNode::Call(c) => SExpr::Call(
            SCall {
                token: c.token@,
                function: Box::new(expr_view(*c.function)),
                arguments: exprs_view(c.arguments@),
            },
        ),
        ExpressionNode::StringExp(s) => SExpr::Str(SStrLit { token: s.token@, value: s.value@ }),
        ExpressionNode::Array(a) => SExpr::Array(
            SArray { token: a.token@, elements: exprs_view(a.elements@) },
        ),
        ExpressionNode::Index(x) => SExpr::Index(
            SIndex {
                token: x.token@,
                left: Box::new(expr_view(*x.left)),
                index: Box::new(expr_view(*x.index)),
            },
        ),
        ExpressionNode::Dictionary(d) => SExpr::Dict(
            SDict { token: d.token@, pairs: pairs_view(d.pairs@) },
        ),
    }
}

pub open spec fn opt_expr_view(oe: Option<ExpressionNode>) -> Option<SExpr>
    decreases oe,
{
    match oe {
        Option::Some(e) => Option::Some(expr_view(e)),
        Option::None => Option::None,
    }
}

pub open spec fn exprs_view(v: Seq<ExpressionNode>) -> Seq<SExpr>
    decreases v,
{
    if v.len() == 0 {
        Seq::empty()
    } else {
        exprs_view(v.drop_last()).push(expr_view(v.last()))
    }
}

pub open spec fn pairs_view(v: Seq<(ExpressionNode, ExpressionNode)>) -> Seq<(SExpr, SExpr)>
    decreases v,
{
    if v.len() == 0 {
        Seq::empty()
    } else {
        pairs_view(v.drop_last()).push((expr_view(v.last().0), expr_view(v.last().1)))
    }
}

pub open spec fn say_view(s: SayStatement) -> SSay
    decreases s,
{
    SSay { token: s.token@, name: ident_view(s.name), value: opt_expr_view(s.value) }
}

pub open spec fn return_view(r: ReturnStatement) -> SReturn
    decreases r,
{
    SReturn { token: r.token@, return_value: opt_expr_view(r.return_value) }
}

pub open spec fn expr_stmt_view(e: ExpressionStatement) -> SExprStmt
    decreases e,
{
    SExprStmt { token: e.token@, expression: opt_expr_view(e.expression) }
}

#[verifier::opaque]
pub open spec fn stmt_view(s: StatementNode) -> SStmt
    decreases s,
{
    match s {
        StatementNode::Say(s) => SStmt::Say(say_view(s)),
        StatementNode::Return(r) => SStmt::Return(return_view(r)),
        StatementNode::Expression(e) => SStmt::Expression(expr_stmt_view(e)),
        StatementNode::Block(b) => SStmt::Block(block_view(b)),
    }
}

pub open spec fn opt_stmt_view(os: Option<StatementNode>) -> Option<SStmt> {
    match os {
        Option::Some(s) => Option::Some(stmt_view(s)),
        Option::None => Option::None,
    }
}

pub open spec fn stmts_view(v: Seq<StatementNode>) -> Seq<SStmt>
    decreases v,
{
    if v.len() == 0 {
        Seq::empty()
    } else {
        stmts_view(v.drop_last()).push(stmt_view(v.last()))
    }
}

pub open spec fn block_view(b: BlockStatement) -> SBlock
    decreases b,
{
    SBlock { token: b.token@, statements: stmts_view(b.statements@) }
}

impl View for ExpressionNode {
    type V = SExpr;

    open spec fn view(&self) -> SExpr {
        expr_view(*self)
    }
}

impl View for StatementNode {
    type V = SStmt;

    open spec fn view(&self) -> SStmt {
        stmt_view(*self)
    }
}

impl View for BlockStatement {
    type V = SBlock;

    open spec fn view(&self) -> SBlock {
        block_view(*self)
    }
}

impl View for Identifier {
    type V = SIdent;

    open spec fn view(&self) -> SIdent {
        ident_view(*self)
    }
}

impl View for Program {
    type V = SProgram;

    open spec fn view(&self) -> SProgram {
        SProgram { statements: stmts_view(self.statements@) }
    }
}


// ---------------------------------------------------------------------------
// Pointwise facts about the sequence views
// ---------------------------------------------------------------------------

pub broadcast proof fn lemma_idents_view_len(v: Seq<Identifier>)
    ensures
        (#[trigger] idents_view(v)).len() == v.len(),
    decreases v.len(),
{
    if v.len() > 0 {
        lemma_idents_view_len(v.drop_last());
    }
}

pub broadcast proof fn lemma_idents_view_index(v: Seq<Identifier>, i: int)
    requires
        0 <= i < v.len(),
    ensures
        #[trigger] idents_view(v)[i] == ident_view(v[i]),
    decreases v.len(),
{
    lemma_idents_view_len(v);
    lemma_idents_view_len(v.drop_last());
    if i < v.len() - 1 {
        lemma_idents_view_index(v.drop_last(), i);
    }
}

pub broadcast proof fn lemma_exprs_view_len(v: Seq<ExpressionNode>)
    ensures
        (#[trigger] exprs_view(v)).len() == v.len(),
    decreases v.len(),
{
    if v.len() > 0 {
        lemma_exprs_view_len(v.drop_last());
    }
}

pub broadcast proof fn lemma_exprs_view_index(v: Seq<ExpressionNode>, i: int)
    requires
        0 <= i < v.len(),
    ensures
        #[trigger] exprs_view(v)[i] == expr_view(v[i]),
    decreases v.len(),
{
    reveal(expr_view);
    lemma_exprs_view_len(v);
    lemma_exprs_view_len(v.drop_last());
    assert(exprs_view(v) == exprs_view(v.drop_last()).push(expr_view(v.last())));
    if i < v.len() - 1 {
        lemma_exprs_view_index(v.drop_last(), i);
        assert(v.drop_last()[i] == v[i]);
        assert(exprs_view(v)[i] == exprs_view(v.drop_last())[i]);
    } else {
        assert(v.last() == v[i]);
        assert(exprs_view(v)[i] == expr_view(v.last()));
    }
}

pub broadcast proof fn lemma_pairs_view_len(v: Seq<(ExpressionNode, ExpressionNode)>)
    ensures
        (#[trigger] pairs_view(v)).len() == v.len(),
    decreases v.len(),
{
    if v.len() > 0 {
        lemma_pairs_view_len(v.drop_last());
    }
}

pub broadcast proof fn lemma_pairs_view_index(v: Seq<(ExpressionNode, ExpressionNode)>, i: int)
    requires
        0 <= i < v.len(),
    ensures
        #[trigger] pairs_view(v)[i] == (expr_view(v[i].0), expr_view(v[i].1)),
    decreases v.len(),
{
    reveal(expr_view);
    lemma_pairs_view_len(v);
    lemma_pairs_view_len(v.drop_last());
    assert(pairs_view(v) == pairs_view(v.drop_last()).push((expr_view(v.last().0), expr_view(v.last().1))));
    if i < v.len() - 1 {
        lemma_pairs_view_index(v.drop_last(), i);
        assert(v.drop_last()[i] == v[i]);
        assert(pairs_view(v)[i] == pairs_view(v.drop_last())[i]);
    } else {
        assert(v.last() == v[i]);
        assert(pairs_view(v)[i] == (expr_view(v.last().0), expr_view(v.last().1)));
    }
}

pub broadcast proof fn lemma_stmts_view_len(v: Seq<StatementNode>)
    ensures
        (#[trigger] stmts_view(v)).len() == v.len(),
    decreases v.len(),
{
    if v.len() > 0 {
        lemma_stmts_view_len(v.drop_last());
    }
}

pub broadcast proof fn lemma_stmts_view_index(v: Seq<StatementNode>, i: int)
    requires
        0 <= i < v.len(),
    ensures
        #[trigger] stmts_view(v)[i] == stmt_view(v[i]),
    decreases v.len(),
{
    reveal(stmt_view);
    lemma_stmts_view_len(v);
    lemma_stmts_view_len(v.drop_last());
    assert(stmts_view(v) == stmts_view(v.drop_last()).push(stmt_view(v.last())));
    if i < v.len() - 1 {
        lemma_stmts_view_index(v.drop_last(), i);
        assert(v.drop_last()[i] == v[i]);
        assert(stmts_view(v)[i] == stmts_view(v.drop_last())[i]);
    } else {
        assert(v.last() == v[i]);
        assert(stmts_view(v)[i] == stmt_view(v.last()));
    }
}

#[verifier::spinoff_prover]
pub proof fn lemma_exprs_view_pointwise(a: Seq<ExpressionNode>, b: Seq<ExpressionNode>)
    requires
        a.len() == b.len(),
        forall|j: int| 0 <= j < a.len() ==> expr_view(a[j]) == expr_view(b[j]),
    ensures
        exprs_view(a) == exprs_view(b),
    decreases a.len(),
{
    if a.len() > 0 {
        lemma_exprs_view_pointwise(a.drop_last(), b.drop_last());
    }
}

#[verifier::spinoff_prover]
pub proof fn lemma_pairs_view_pointwise(
    a: Seq<(ExpressionNode, ExpressionNode)>,
    b: Seq<(ExpressionNode, ExpressionNode)>,
)
    requires
        a.len() == b.len(),
        forall|j: int|
            0 <= j < a.len() ==> expr_view(#[trigger] a[j].0) == expr_view(b[j].0) && expr_view(
                a[j].1,
            ) == expr_view(b[j].1),
    ensures
        pairs_view(a) == pairs_view(b),
    decreases a.len(),
{
    if a.len() > 0 {
        lemma_pairs_view_pointwise(a.drop_last(), b.drop_last());
    }
}

#[verifier::spinoff_prover]
pub proof fn lemma_stmts_view_pointwise(a: Seq<StatementNode>, b: Seq<StatementNode>)
    requires
        a.len() == b.len(),
        forall|j: int| 0 <= j < a.len() ==> stmt_view(a[j]) == stmt_view(b[j]),
    ensures
        stmts_view(a) == stmts_view(b),
    decreases a.len(),
{
    if a.len() > 0 {
        lemma_stmts_view_pointwise(a.drop_last(), b.drop_last());
    }
}

/// A block's view carries exactly the views of its statements.
pub proof fn lemma_block_view_statements(b: BlockStatement)
    ensures
        block_view(b).statements == stmts_view(b.statements@),
{
    reveal(stmt_view);
    reveal(expr_view);
}

/// What the optional-expression view does on each constructor.
pub proof fn lemma_opt_expr_view_cases(oe: Option<ExpressionNode>)
    ensures
        oe is Some ==> opt_expr_view(oe) == Option::Some(expr_view(oe->0)),
        oe is None ==> opt_expr_view(oe) == Option::<SExpr>::None,
{
    reveal(expr_view);
}

/// One step of the pairs view, for building dictionaries incrementally.
pub proof fn lemma_pairs_view_push(v: Seq<(ExpressionNode, ExpressionNode)>)
    requires
        v.len() > 0,
    ensures
        pairs_view(v) == pairs_view(v.drop_last()).push(
            (expr_view(v.last().0), expr_view(v.last().1)),
        ),
{
    reveal(expr_view);
}

/// The view of a statement, one constructor at a time.
pub proof fn lemma_stmt_view_unfold(s: StatementNode)
    ensures
        s is Say ==> stmt_view(s) == SStmt::Say(
            SSay {
                token: s->Say_0.token@,
                name: ident_view(s->Say_0.name),
                value: opt_expr_view(s->Say_0.value),
            },
        ),
        s is Return ==> stmt_view(s) == SStmt::Return(
            SReturn { token: s->Return_0.token@, return_value: opt_expr_view(s->Return_0.return_value) },
        ),
        s is Expression ==> stmt_view(s) == SStmt::Expression(
            SExprStmt { token: s->Expression_0.token@, expression: opt_expr_view(s->Expression_0.expression) },
        ),
        s is Block ==> stmt_view(s) == SStmt::Block(block_view(s->Block_0)),
{
    reveal(stmt_view);
}

// ---------------------------------------------------------------------------
// Cloning
//
// The evaluator duplicates values when a binding is read out of a scope, and
// a function value owns a copy of its body, so the tree must be clonable.
// The impls are written by hand so that the clone is known to equal the
// original.
// ---------------------------------------------------------------------------

#[verifier::spinoff_prover]
pub fn clone_ident(i: &Identifier) -> (r: Identifier)
    ensures
        r == *i,
{
    Identifier { token: i.token.clone(), value: i.value.clone() }
}

#[verifier::spinoff_prover]
pub fn clone_idents(v: &Vec<Identifier>) -> (r: Vec<Identifier>)
    ensures
        r@ == v@,
{
    let mut out: Vec<Identifier> = Vec::new();
    let mut k: usize = 0;
    while k < v.len()
        invariant
            k <= v.len(),
            out@ =~= v@.subrange(0, k as int),
        decreases v.len() - k,
    {
        out.push(clone_ident(&v[k]));
        k = k + 1;
        proof {
            assert(out@ =~= v@.subrange(0, k as int));
        }
    }
    proof {
        assert(out@ =~= v@);
    }
    out
}

#[verifier::spinoff_prover]
pub fn clone_opt_expr(oe: &Option<ExpressionNode>) -> (r: Option<ExpressionNode>)
    ensures
        opt_expr_view(r) == opt_expr_view(*oe),
    decreases *oe,
{
    match oe {
        Option::Some(e) => Option::Some(clone_expr(e)),
        Option::None => Option::None,
    }
}

#[verifier::spinoff_prover]
pub fn clone_expr(e: &ExpressionNode) -> (r: ExpressionNode)
    ensures
        expr_view(r) == expr_view(*e),
    decreases *e,
{
    proof {
        reveal(expr_view);
    }
    match e {
        ExpressionNode::Empty => ExpressionNode::Empty,
        ExpressionNode::IdentifierNode(i) => ExpressionNode::IdentifierNode(clone_ident(i)),
        ExpressionNode::Integer(n) => ExpressionNode::Integer(
            IntegerLiteral { token: n.token.clone(), value: n.value },
        ),
        ExpressionNode::Prefix(p) => ExpressionNode::Prefix(
            PrefixExpression {
                token: p.token.clone(),
                operator: p.operator.clone(),
                right: Box::new(clone_expr(&p.right)),
            },
        ),
        ExpressionNode::Infix(p) => ExpressionNode::Infix(
            InfixExpression {
                token: p.token.clone(),
                left: Box::new(clone_expr(&p.left)),
                operator: p.operator.clone(),
                right: Box::new(clone_expr(&p.right)),
            },
        ),
        ExpressionNode::BooleanNode(b) => ExpressionNode::BooleanNode(
            Boolean { token: b.token.clone(), value: b.value },
        ),
        ExpressionNode::IfExpressionNode(f) => ExpressionNode::IfExpressionNode(
            IfExpression {
                token: f.token.clone(),
                condition: Box::new(clone_expr(&f.condition)),
                consequence: clone_block(&f.consequence),
                alternative: match &f.alternative {
                    Option::Some(b) => Option::Some(clone_block(b)),
                    Option::None => Option::None,
                },
            },
        ),
        ExpressionNode::Function(f) => ExpressionNode::Function(
            FunctionLiteral {
                token: f.token.clone(),
                parameters: clone_idents(&f.parameters),
                body: clone_block(&f.body),
            },
        ),
        ExpressionNode::Call(c) => ExpressionNode::Call(
            CallExpression {
                token: c.token.clone(),
                function: Box::new(clone_expr(&c.function)),
                arguments: clone_exprs(&c.arguments),
            },
        ),
        ExpressionNode::StringExp(s) => ExpressionNode::StringExp(
            StringLiteral { token: s.token.clone(), value: s.value.clone() },
        ),
        ExpressionNode::Array(a) => ExpressionNode::Array(
            ArrayLiteral { token: a.token.clone(), elements: clone_exprs(&a.elements) },
        ),
        ExpressionNode::Index(x) => ExpressionNode::Index(
            IndexExpression {
                token: x.token.clone(),
                left: Box::new(clone_expr(&x.left)),
                index: Box::new(clone_expr(&x.index)),
            },
        ),
        ExpressionNode::Dictionary(d) => ExpressionNode::Dictionary(
            DictLiteral { token: d.token.clone(), pairs: clone_pairs(&d.pairs) },
        ),
    }
}

#[verifier::spinoff_prover]
pub fn clone_exprs(v: &Vec<ExpressionNode>) -> (r: Vec<ExpressionNode>)
    ensures
        exprs_view(r@) == exprs_view(v@),
        r@.len() == v@.len(),
    decreases v@,
{
    let mut out: Vec<ExpressionNode> = Vec::new();
    let mut k: usize = 0;
    while k < v.len()
        invariant
            k <= v.len(),
            out@.len() == k,
            forall|j: int| 0 <= j < k ==> expr_view(#[trigger] out@[j]) == expr_view(v@[j]),
        decreases v.len() - k,
    {
        out.push(clone_expr(&v[k]));
        k = k + 1;
    }
    proof {
        lemma_exprs_view_pointwise(out@, v@);
    }
    out
}

#[verifier::spinoff_prover]
pub fn clone_pairs(v: &Vec<(ExpressionNode, ExpressionNode)>) -> (r: Vec<(ExpressionNode, ExpressionNode)>)
    ensures
        pairs_view(r@) == pairs_view(v@),
        r@.len() == v@.len(),
    decreases v@,
{
    let mut out: Vec<(ExpressionNode, ExpressionNode)> = Vec::new();
    let mut k: usize = 0;
    while k < v.len()
        invariant
            k <= v.len(),
            out@.len() == k,
            forall|j: int|
                0 <= j < k ==> expr_view(#[trigger] out@[j].0) == expr_view(v@[j].0) && expr_view(
                    out@[j].1,
                ) == expr_view(v@[j].1),
        decreases v.len() - k,
    {
        let e0 = clone_expr(&v[k].0);
        let e1 = clone_expr(&v[k].1);
        out.push((e0, e1));
        k = k + 1;
    }
    proof {
        lemma_pairs_view_pointwise(out@, v@);
    }
    out
}

#[verifier::spinoff_prover]
pub fn clone_say(say: &SayStatement) -> (r: SayStatement)
    ensures
        say_view(r) == say_view(*say),
    decreases *say,
{
    SayStatement {
        token: say.token.clone(),
        name: clone_ident(&say.name),
        value: clone_opt_expr(&say.value),
    }
}

#[verifier::spinoff_prover]
pub fn clone_return(ret: &ReturnStatement) -> (r: ReturnStatement)
    ensures
        return_view(r) == return_view(*ret),
    decreases *ret,
{
    ReturnStatement { token: ret.token.clone(), return_value: clone_opt_expr(&ret.return_value) }
}

#[verifier::spinoff_prover]
pub fn clone_expr_stmt(es: &ExpressionStatement) -> (r: ExpressionStatement)
    ensures
        expr_stmt_view(r) == expr_stmt_view(*es),
    decreases *es,
{
    ExpressionStatement { token: es.token.clone(), expression: clone_opt_expr(&es.expression) }
}

#[verifier::spinoff_prover]
pub fn clone_stmt(s: &StatementNode) -> (r: StatementNode)
    ensures
        stmt_view(r) == stmt_view(*s),
    decreases *s,
{
    proof {
        reveal(stmt_view);
    }
    match s {
        StatementNode::Say(say) => StatementNode::Say(clone_say(say)),
        StatementNode::Return(ret) => StatementNode::Return(clone_return(ret)),
        StatementNode::Expression(es) => StatementNode::Expression(clone_expr_stmt(es)),
        StatementNode::Block(b) => StatementNode::Block(clone_block(b)),
    }
}

#[verifier::spinoff_prover]
pub fn clone_stmts(v: &Vec<StatementNode>) -> (r: Vec<StatementNode>)
    ensures
        stmts_view(r@) == stmts_view(v@),
        r@.len() == v@.len(),
    decreases v@,
{
    let mut out: Vec<StatementNode> = Vec::new();
    let mut k: usize = 0;
    while k < v.len()
        invariant
            k <= v.len(),
            out@.len() == k,
            forall|j: int| 0 <= j < k ==> stmt_view(#[trigger] out@[j]) == stmt_view(v@[j]),
        decreases v.len() - k,
    {
        out.push(clone_stmt(&v[k]));
        k = k + 1;
    }
    proof {
        lemma_stmts_view_pointwise(out@, v@);
    }
    out
}

#[verifier::spinoff_prover]
pub fn clone_block(b: &BlockStatement) -> (r: BlockStatement)
    ensures
        block_view(r) == block_view(*b),
    decreases *b,
{
    BlockStatement { token: b.token.clone(), statements: clone_stmts(&b.statements) }
}

impl Clone for ExpressionNode {
    fn clone(&self) -> (r: Self)
        ensures
            r@ == self@,
    {
        clone_expr(self)
    }
}

impl Clone for StatementNode {
    fn clone(&self) -> (r: Self)
        ensures
            r@ == self@,
    {
        clone_stmt(self)
    }
}

impl Clone for BlockStatement {
    fn clone(&self) -> (r: Self)
        ensures
            r@ == self@,
    {
        clone_block(self)
    }
}

impl Clone for Identifier {
    fn clone(&self) -> (r: Self)
        ensures
            r == *self,
    {
        clone_ident(self)
    }
}

// ---------------------------------------------------------------------------
// Textual rendering
//
// Every node renders a canonical, fully parenthesized textual form of
// itself; the `print_..._s` functions say exactly which characters come out.
// ---------------------------------------------------------------------------

pub open spec fn print_opt_expr_s(oe: Option<SExpr>) -> Seq<char>
    decreases oe,
{
    match oe {
        Option::Some(e) => print_expr_s(e),
        Option::None => Seq::empty(),
    }
}

pub open spec fn print_expr_s(e: SExpr) -> Seq<char>
    decreases e, 0int,
{
    match e {
        SExpr::Empty => Seq::empty(),
        SExpr::Ident(i) => i.value,
        SExpr::Int(n) => n.token.literal,
        SExpr::Prefix(p) => "("@ + p.operator + print_expr_s(*p.right) + ")"@,
        SExpr::Infix(p) => "("@ + print_expr_s(*p.left) + " "@ + p.operator + " "@ + print_expr_s(
            *p.right,
        ) + ")"@,
        SExpr::Bool(b) => b.token.literal,
        SExpr::If(f) => "if"@ + print_expr_s(*f.condition) + " "@ + print_block_s(f.consequence)
            + (match f.alternative {
            Option::Some(alt) => "else "@ + print_block_s(alt),
            Option::None => Seq::empty(),
        }),
        SExpr::Function(f) => f.token.literal + "("@ + print_idents_s(f.parameters) + ")"@
            + print_block_s(f.body),
        SExpr::Call(c) => print_expr_s(*c.function) + "("@ + print_exprs_s(c.arguments) + ")"@,
        SExpr::Str(s) => s.token.literal,
        SExpr::Array(a) => "["@ + print_exprs_s(a.elements) + "]"@,
        SExpr::Index(x) => "("@ + print_expr_s(*x.left) + "["@ + print_expr_s(*x.index) + "])"@,
        SExpr::Dict(d) => "{"@ + print_pairs_s(d.pairs) + "}"@,
    }
}

/// Comma-separated parameter names.
pub open spec fn print_idents_s(v: Seq<SIdent>) -> Seq<char>
    decreases v,
{
    if v.len() == 0 {
        Seq::empty()
    } else if v.len() == 1 {
        v[0].value
    } else {
        print_idents_s(v.drop_last()) + ", "@ + v.last().value
    }
}

/// Comma-separated renderings of a list of expressions.
pub open spec fn print_exprs_s(v: Seq<SExpr>) -> Seq<char>
    decreases v, 1int,
{
    if v.len() == 0 {
        Seq::empty()
    } else if v.len() == 1 {
        print_expr_s(v[0])
    } else {
        print_exprs_s(v.drop_last()) + ", "@ + print_expr_s(v.last())
    }
}

/// Comma-separated `key:value` pairs.
pub open spec fn print_pairs_s(v: Seq<(SExpr, SExpr)>) -> Seq<char>
    decreases v, 1int,
{
    if v.len() == 0 {
        Seq::empty()
    } else if v.len() == 1 {
        print_expr_s(v[0].0) + ":"@ + print_expr_s(v[0].1)
    } else {
        print_pairs_s(v.drop_last()) + ", "@ + print_expr_s(v.last().0) + ":"@ + print_expr_s(
            v.last().1,
        )
    }
}

pub open spec fn print_stmt_s(s: SStmt) -> Seq<char>
    decreases s, 1int,
{
    match s {
        SStmt::Say(s) => s.token.literal + " "@ + s.name.value + " = "@ + print_opt_expr_s(s.value)
            + ";"@,
        SStmt::Return(r) => r.token.literal + " "@ + print_opt_expr_s(r.return_value) + ";"@,
        SStmt::Expression(e) => print_opt_expr_s(e.expression),
        SStmt::Block(b) => print_block_s(b),
    }
}

/// A block renders as the concatenation of its statements' renderings.
pub open spec fn print_stmts_s(v: Seq<SStmt>) -> Seq<char>
    decreases v, 2int,
{
    if v.len() == 0 {
        Seq::empty()
    } else {
        print_stmts_s(v.drop_last()) + print_stmt_s(v.last())
    }
}

pub open spec fn print_block_s(b: SBlock) -> Seq<char>
    decreases b, 3int,
{
    print_stmts_s(b.statements)
}

pub open spec fn print_program_s(p: SProgram) -> Seq<char> {
    print_stmts_s(p.statements)
}

// ---------------------------------------------------------------------------
// Executable rendering
// ---------------------------------------------------------------------------

#[verifier::spinoff_prover]
pub fn print_opt_expression(oe: &Option<ExpressionNode>) -> (r: String)
    ensures
        r@ == print_opt_expr_s(opt_expr_view(*oe)),
    decreases *oe, 1int,
{
    match oe {
        Option::Some(e) => print_expression(e),
        Option::None => String::new(),
    }
}

#[verifier::spinoff_prover]
#[verifier::rlimit(100)]
pub fn print_expression(e: &ExpressionNode) -> (r: String)
    ensures
        r@ == print_expr_s(expr_view(*e)),
    decreases *e, 0int,
{
    proof {
        reveal(expr_view);
    }
    match e {
        ExpressionNode::Empty => String::new(),
        ExpressionNode::IdentifierNode(i) => i.value.clone(),
        ExpressionNode::Integer(n) => n.token.literal.clone(),
        ExpressionNode::Prefix(p) => {
            let mut out = String::from_str("(");
            out.append(p.operator.as_str());
            let rs = print_expression(&p.right);
            out.append(rs.as_str());
            out.append(")");
            proof {
                assert(out@ =~= print_expr_s(expr_view(*e)));
            }
            out
        },
        ExpressionNode::Infix(p) => {
            let mut out = String::from_str("(");
            let ls = print_expression(&p.left);
            out.append(ls.as_str());
            out.append(" ");
            out.append(p.operator.as_str());
            out.append(" ");
            let rs = print_expression(&p.right);
            out.append(rs.as_str());
            out.append(")");
            proof {
                assert(out@ =~= print_expr_s(expr_view(*e)));
            }
            out
        },
        ExpressionNode::BooleanNode(b) => b.token.literal.clone(),
        ExpressionNode::IfExpressionNode(f) => {
            let mut out = String::from_str("if");
            let cs = print_expression(&f.condition);
            out.append(cs.as_str());
            out.append(" ");
            let bs = print_block(&f.consequence);
            out.append(bs.as_str());
            match &f.alternative {
                Option::Some(alt) => {
                    out.append("else ");
                    let als = print_block(alt);
                    out.append(als.as_str());
                },
                Option::None => {},
            }
            proof {
                assert(out@ =~= print_expr_s(expr_view(*e)));
            }
            out
        },
        ExpressionNode::Function(f) => {
            let mut out = f.token.literal.clone();
            out.append("(");
            let ps = print_identifiers(&f.parameters);
            out.append(ps.as_str());
            out.append(")");
            let bs = print_block(&f.body);
            out.append(bs.as_str());
            proof {
                assert(out@ =~= print_expr_s(expr_view(*e)));
            }
            out
        },
        ExpressionNode::Call(c) => {
            let mut out = print_expression(&c.function);
            out.append("(");
            let args = print_expressions(&c.arguments);
            out.append(args.as_str());
            out.append(")");
            proof {
                assert(out@ =~= print_expr_s(expr_view(*e)));
            }
            out
        },
        ExpressionNode::StringExp(s) => s.token.literal.clone(),
        ExpressionNode::Array(a) => {
            let mut out = String::from_str("[");
            let els = print_expressions(&a.elements);
            out.append(els.as_str());
            out.append("]");
            proof {
                assert(out@ =~= print_expr_s(expr_view(*e)));
            }
            out
        },
        ExpressionNode::Index(x) => {
            let mut out = String::from_str("(");
            let ls = print_expression(&x.left);
            out.append(ls.as_str());
            out.append("[");
            let is_ = print_expression(&x.index);
            out.append(is_.as_str());
            out.append("])");
            proof {
                assert(out@ =~= print_expr_s(expr_view(*e)));
            }
            out
        },
        ExpressionNode::Dictionary(d) => {
            let mut out = String::from_str("{");
            let ps = print_expression_pairs(&d.pairs);
            out.append(ps.as_str());
            out.append("}");
            proof {
                assert(out@ =~= print_expr_s(expr_view(*e)));
            }
            out
        },
    }
}

#[verifier::spinoff_prover]
pub fn print_identifiers(v: &Vec<Identifier>) -> (r: String)
    ensures
        r@ == print_idents_s(idents_view(v@)),
{
    proof {
        broadcast use {lemma_idents_view_len, lemma_idents_view_index};

    }
    let mut out = String::new();
    let mut k: usize = 0;
    while k < v.len()
        invariant
            k <= v@.len(),
            out@ == print_idents_s(idents_view(v@.subrange(0, k as int))),
        decreases v.len() - k,
    {
        let ghost prev = v@.subrange(0, k as int);
        if k > 0 {
            out.append(", ");
        }
        out.append(v[k].value.as_str());
        k = k + 1;
        proof {
            let cur = v@.subrange(0, k as int);
            assert(cur.drop_last() =~= prev);
            assert(idents_view(cur).drop_last() =~= idents_view(prev));
            assert(idents_view(cur).last() == ident_view(v@[k - 1]));
            assert(out@ =~= print_idents_s(idents_view(cur)));
        }
    }
    proof {
        assert(v@.subrange(0, v@.len() as int) =~= v@);
    }
    out
}

#[verifier::spinoff_prover]
pub fn print_expressions(v: &Vec<ExpressionNode>) -> (r: String)
    ensures
        r@ == print_exprs_s(exprs_view(v@)),
    decreases v@, 1int,
{
    proof {
        broadcast use {lemma_exprs_view_len, lemma_exprs_view_index};

    }
    let mut out = String::new();
    let mut k: usize = 0;
    while k < v.len()
        invariant
            k <= v@.len(),
            out@ == print_exprs_s(exprs_view(v@.subrange(0, k as int))),
        decreases v.len() - k,
    {
        let ghost prev = v@.subrange(0, k as int);
        if k > 0 {
            out.append(", ");
        }
        let es = print_expression(&v[k]);
        out.append(es.as_str());
        k = k + 1;
        proof {
            let cur = v@.subrange(0, k as int);
            assert(cur.drop_last() =~= prev);
            assert(exprs_view(cur).drop_last() =~= exprs_view(prev));
            assert(exprs_view(cur).last() == expr_view(v@[k - 1]));
            assert(out@ =~= print_exprs_s(exprs_view(cur)));
        }
    }
    proof {
        assert(v@.subrange(0, v@.len() as int) =~= v@);
    }
    out
}

#[verifier::spinoff_prover]
pub fn print_expression_pairs(v: &Vec<(ExpressionNode, ExpressionNode)>) -> (r: String)
    ensures
        r@ == print_pairs_s(pairs_view(v@)),
    decreases v@, 1int,
{
    proof {
        broadcast use {lemma_pairs_view_len, lemma_pairs_view_index};

    }
    let mut out = String::new();
    let mut k: usize = 0;
    while k < v.len()
        invariant
            k <= v@.len(),
            out@ == print_pairs_s(pairs_view(v@.subrange(0, k as int))),
        decreases v.len() - k,
    {
        let ghost prev = v@.subrange(0, k as int);
        if k > 0 {
            out.append(", ");
        }
        let ks = print_expression(&v[k].0);
        out.append(ks.as_str());
        out.append(":");
        let vs = print_expression(&v[k].1);
        out.append(vs.as_str());
        k = k + 1;
        proof {
            let cur = v@.subrange(0, k as int);
            assert(cur.drop_last() =~= prev);
            assert(pairs_view(cur).drop_last() =~= pairs_view(prev));
            assert(pairs_view(cur).last() == (expr_view(v@[k - 1].0), expr_view(v@[k - 1].1)));
            assert(out@ =~= print_pairs_s(pairs_view(cur)));
        }
    }
    proof {
        assert(v@.subrange(0, v@.len() as int) =~= v@);
    }
    out
}

#[verifier::spinoff_prover]
pub fn print_statement(s: &StatementNode) -> (r: String)
    ensures
        r@ == print_stmt_s(stmt_view(*s)),
    decreases *s, 1int,
{
    proof {
        reveal(stmt_view);
    }
    match s {
        StatementNode::Say(say) => {
            let mut out = say.token.literal.clone();
            out.append(" ");
            out.append(say.name.value.as_str());
            out.append(" = ");
            let vs = print_opt_expression(&say.value);
            out.append(vs.as_str());
            out.append(";");
            proof {
                assert(out@ =~= print_stmt_s(stmt_view(*s)));
            }
            out
        },
        StatementNode::Return(ret) => {
            let mut out = ret.token.literal.clone();
            out.append(" ");
            let vs = print_opt_expression(&ret.return_value);
            out.append(vs.as_str());
            out.append(";");
            proof {
                assert(out@ =~= print_stmt_s(stmt_view(*s)));
            }
            out
        },
        StatementNode::Expression(es) => print_opt_expression(&es.expression),
        StatementNode::Block(b) => print_block(b),
    }
}

#[verifier::spinoff_prover]
pub fn print_statements(v: &Vec<StatementNode>) -> (r: String)
    ensures
        r@ == print_stmts_s(stmts_view(v@)),
    decreases v@, 2int,
{
    proof {
        broadcast use {lemma_stmts_view_len, lemma_stmts_view_index};

    }
    let mut out = String::new();
    let mut k: usize = 0;
    while k < v.len()
        invariant
            k <= v@.len(),
            out@ == print_stmts_s(stmts_view(v@.subrange(0, k as int))),
        decreases v.len() - k,
    {
        let ghost prev = v@.subrange(0, k as int);
        let ss = print_statement(&v[k]);
        out.append(ss.as_str());
        k = k + 1;
        proof {
            let cur = v@.subrange(0, k as int);
            assert(cur.drop_last() =~= prev);
            assert(stmts_view(cur).drop_last() =~= stmts_view(prev));
            assert(stmts_view(cur).last() == stmt_view(v@[k - 1]));
            assert(out@ =~= print_stmts_s(stmts_view(cur)));
        }
    }
    proof {
        assert(v@.subrange(0, v@.len() as int) =~= v@);
    }
    out
}

#[verifier::spinoff_prover]
pub fn print_block(b: &BlockStatement) -> (r: String)
    ensures
        r@ == print_block_s(block_view(*b)),
    decreases *b, 3int,
{
    proof {
        lemma_block_view_statements(*b);
    }
    print_statements(&b.statements)
}

/// The literal text of the token a statement begins at.
pub open spec fn stmt_token_literal_s(s: SStmt) -> Seq<char> {
    match s {
        SStmt::Say(x) => x.token.literal,
        SStmt::Return(x) => x.token.literal,
        SStmt::Expression(x) => x.token.literal,
        SStmt::Block(x) => x.token.literal,
    }
}

/// The literal text of the token an expression begins at.
pub open spec fn expr_token_literal_s(e: SExpr) -> Seq<char> {
    match e {
        SExpr::Empty => Seq::empty(),
        SExpr::Ident(x) => x.token.literal,
        SExpr::Int(x) => x.token.literal,
        SExpr::Prefix(x) => x.token.literal,
        SExpr::Infix(x) => x.token.literal,
        SExpr::Bool(x) => x.token.literal,
        SExpr::If(x) => x.token.literal,
        SExpr::Function(x) => x.token.literal,
        SExpr::Call(x) => x.token.literal,
        SExpr::Str(x) => x.token.literal,
        SExpr::Array(x) => x.token.literal,
        SExpr::Index(x) => x.token.literal,
        SExpr::Dict(x) => x.token.literal,
    }
}

// ---------------------------------------------------------------------------
// The Node trait
// ---------------------------------------------------------------------------

/// Every node reports the literal text of the token it began at, and
/// renders its canonical textual form; the free `print_...` functions above
/// carry the exact contracts.
pub trait Node {
    fn token_literal(&self) -> String;

    fn print_string(&self) -> String;
}

impl Node for Program {
    fn token_literal(&self) -> (r: String)
        ensures
            self@.statements.len() > 0 ==> r@ == stmt_token_literal_s(self@.statements[0]),
            self@.statements.len() == 0 ==> r@ == Seq::<char>::empty(),
    {
        proof {
            broadcast use {lemma_stmts_view_len, lemma_stmts_view_index};

        }
        if self.statements.len() > 0 {
            self.statements[0].token_literal()
        } else {
            String::new()
        }
    }

    fn print_string(&self) -> (r: String)
        ensures
            r@ == print_stmts_s(self@.statements),
    {
        print_statements(&self.statements)
    }
}

impl Node for StatementNode {
    fn token_literal(&self) -> (r: String)
        ensures
            r@ == stmt_token_literal_s(self@),
    {
        proof {
            reveal(stmt_view);
        }
        match self {
            StatementNode::Say(s) => s.token.literal.clone(),
            StatementNode::Return(r) => r.token.literal.clone(),
            StatementNode::Expression(e) => e.token.literal.clone(),
            StatementNode::Block(b) => b.token.literal.clone(),
        }
    }

    fn print_string(&self) -> (r: String)
        ensures
            r@ == print_stmt_s(self@),
    {
        print_statement(self)
    }
}

impl Node for ExpressionNode {
    fn token_literal(&self) -> (r: String)
        ensures
            r@ == expr_token_literal_s(self@),
    {
        proof {
            reveal(expr_view);
        }
        match self {
            ExpressionNode::Empty => String::new(),
            ExpressionNode::IdentifierNode(i) => i.token.literal.clone(),
            ExpressionNode::Integer(n) => n.token.literal.clone(),
            ExpressionNode::Prefix(p) => p.token.literal.clone(),
            ExpressionNode::Infix(p) => p.token.literal.clone(),
            ExpressionNode::BooleanNode(b) => b.token.literal.clone(),
            ExpressionNode::IfExpressionNode(f) => f.token.literal.clone(),
            ExpressionNode::Function(f) => f.token.literal.clone(),
            ExpressionNode::Call(c) => c.token.literal.clone(),
            ExpressionNode::StringExp(s) => s.token.literal.clone(),
            ExpressionNode::Array(a) => a.token.literal.clone(),
            ExpressionNode::Index(x) => x.token.literal.clone(),
            ExpressionNode::Dictionary(d) => d.token.literal.clone(),
        }
    }

    fn print_string(&self) -> (r: String)
        ensures
            r@ == print_expr_s(self@),
    {
        print_expression(self)
    }
}

impl Node for BlockStatement {
    fn token_literal(&self) -> (r: String)
        ensures
            r@ == self@.token.literal,
    {
        self.token.literal.clone()
    }

    fn print_string(&self) -> (r: String)
        ensures
            r@ == print_block_s(self@),
    {
        print_block(self)
    }
}

impl Node for Identifier {
    fn token_literal(&self) -> (r: String)
        ensures
            r@ == self@.token.literal,
    {
        self.token.literal.clone()
    }

    fn print_string(&self) -> (r: String)
        ensures
            r@ == self@.value,
    {
        self.value.clone()
    }
}

impl Node for SayStatement {
    fn token_literal(&self) -> (r: String)
        ensures
            r@ == self.token.literal@,
    {
        self.token.literal.clone()
    }

    fn print_string(&self) -> (r: String)
        ensures
            r@ == self.token.literal@ + " "@ + self.name.value@ + " = "@ + print_opt_expr_s(
                opt_expr_view(self.value),
            ) + ";"@,
    {
        let mut out = self.token.literal.clone();
        out.append(" ");
        out.append(self.name.value.as_str());
        out.append(" = ");
        let vs = print_opt_expression(&self.value);
        out.append(vs.as_str());
        out.append(";");
        proof {
            assert(out@ =~= self.token.literal@ + " "@ + self.name.value@ + " = "@
                + print_opt_expr_s(opt_expr_view(self.value)) + ";"@);
        }
        out
    }
}

impl Node for ReturnStatement {
    fn token_literal(&self) -> (r: String)
        ensures
            r@ == self.token.literal@,
    {
        self.token.literal.clone()
    }

    fn print_string(&self) -> (r: String)
        ensures
            r@ == self.token.literal@ + " "@ + print_opt_expr_s(opt_expr_view(self.return_value))
                + ";"@,
    {
        let mut out = self.token.literal.clone();
        out.append(" ");
        let vs = print_opt_expression(&self.return_value);
        out.append(vs.as_str());
        out.append(";");
        proof {
            assert(out@ =~= self.token.literal@ + " "@ + print_opt_expr_s(
                opt_expr_view(self.return_value),
            ) + ";"@);
        }
        out
    }
}

impl Node for ExpressionStatement {
    fn token_literal(&self) -> (r: String)
        ensures
            r@ == self.token.literal@,
    {
        self.token.literal.clone()
    }

    fn print_string(&self) -> (r: String)
        ensures
            r@ == print_opt_expr_s(opt_expr_view(self.expression)),
    {
        print_opt_expression(&self.expression)
    }
}

impl Node for IntegerLiteral {
    fn token_literal(&self) -> (r: String)
        ensures
            r@ == self.token.literal@,
    {
        self.token.literal.clone()
    }

    fn print_string(&self) -> (r: String)
        ensures
            r@ == self.token.literal@,
    {
        self.token.literal.clone()
    }
}

impl Node for PrefixExpression {
    fn token_literal(&self) -> (r: String)
        ensures
            r@ == self.token.literal@,
    {
        self.token.literal.clone()
    }

    fn print_string(&self) -> (r: String)
        ensures
            r@ == "("@ + self.operator@ + print_expr_s(expr_view(*self.right)) + ")"@,
    {
        let mut out = String::from_str("(");
        out.append(self.operator.as_str());
        let rs = print_expression(&self.right);
        out.append(rs.as_str());
        out.append(")");
        proof {
            assert(out@ =~= "("@ + self.operator@ + print_expr_s(expr_view(*self.right)) + ")"@);
        }
        out
    }
}

impl Node for Boolean {
    fn token_literal(&self) -> (r: String)
        ensures
            r@ == self.token.literal@,
    {
        self.token.literal.clone()
    }

    fn print_string(&self) -> (r: String)
        ensures
            r@ == self.token.literal@,
    {
        self.token.literal.clone()
    }
}

impl Node for InfixExpression {
    fn token_literal(&self) -> (r: String)
        ensures
            r@ == self.token.literal@,
    {
        self.token.literal.clone()
    }

    fn print_string(&self) -> (r: String)
        ensures
            r@ == "("@ + print_expr_s(expr_view(*self.left)) + " "@ + self.operator@ + " "@
                + print_expr_s(expr_view(*self.right)) + ")"@,
    {
        let mut out = String::from_str("(");
        let ls = print_expression(&self.left);
        out.append(ls.as_str());
        out.append(" ");
        out.append(self.operator.as_str());
        out.append(" ");
        let rs = print_expression(&self.right);
        out.append(rs.as_str());
        out.append(")");
        proof {
            assert(out@ =~= "("@ + print_expr_s(expr_view(*self.left)) + " "@ + self.operator@
                + " "@ + print_expr_s(expr_view(*self.right)) + ")"@);
        }
        out
    }
}

impl Node for IfExpression {
    fn token_literal(&self) -> (r: String)
        ensures
            r@ == self.token.literal@,
    {
        self.token.literal.clone()
    }

    fn print_string(&self) -> (r: String)
        ensures
            r@ == "if"@ + print_expr_s(expr_view(*self.condition)) + " "@ + print_block_s(
                block_view(self.consequence),
            ) + (match self.alternative {
                Option::Some(alt) => "else "@ + print_block_s(block_view(alt)),
                Option::None => Seq::empty(),
            }),
    {
        let mut out = String::from_str("if");
        let cs = print_expression(&self.condition);
        out.append(cs.as_str());
        out.append(" ");
        let bs = print_block(&self.consequence);
        out.append(bs.as_str());
        match &self.alternative {
            Option::Some(alt) => {
                out.append("else ");
                let als = print_block(alt);
                out.append(als.as_str());
            },
            Option::None => {},
        }
        proof {
            assert(out@ =~= "if"@ + print_expr_s(expr_view(*self.condition)) + " "@
                + print_block_s(block_view(self.consequence)) + (match self.alternative {
                Option::Some(alt) => "else "@ + print_block_s(block_view(alt)),
                Option::None => Seq::empty(),
            }));
        }
        out
    }
}

impl Node for FunctionLiteral {
    fn token_literal(&self) -> (r: String)
        ensures
            r@ == self.token.literal@,
    {
        self.token.literal.clone()
    }

    fn print_string(&self) -> (r: String)
        ensures
            r@ == self.token.literal@ + "("@ + print_idents_s(idents_view(self.parameters@))
                + ")"@ + print_block_s(block_view(self.body)),
    {
        let mut out = self.token.literal.clone();
        out.append("(");
        let ps = print_identifiers(&self.parameters);
        out.append(ps.as_str());
        out.append(")");
        let bs = print_block(&self.body);
        out.append(bs.as_str());
        proof {
            assert(out@ =~= self.token.literal@ + "("@ + print_idents_s(
                idents_view(self.parameters@),
            ) + ")"@ + print_block_s(block_view(self.body)));
        }
        out
    }
}

impl Node for CallExpression {
    fn token_literal(&self) -> (r: String)
        ensures
            r@ == self.token.literal@,
    {
        self.token.literal.clone()
    }

    fn print_string(&self) -> (r: String)
        ensures
            r@ == print_expr_s(expr_view(*self.function)) + "("@ + print_exprs_s(
                exprs_view(self.arguments@),
            ) + ")"@,
    {
        let mut out = print_expression(&self.function);
        out.append("(");
        let args = print_expressions(&self.arguments);
        out.append(args.as_str());
        out.append(")");
        proof {
            assert(out@ =~= print_expr_s(expr_view(*self.function)) + "("@ + print_exprs_s(
                exprs_view(self.arguments@),
            ) + ")"@);
        }
        out
    }
}

impl Node for StringLiteral {
    fn token_literal(&self) -> (r: String)
        ensures
            r@ == self.token.literal@,
    {
        self.token.literal.clone()
    }

    fn print_string(&self) -> (r: String)
        ensures
            r@ == self.token.literal@,
    {
        self.token.literal.clone()
    }
}

impl Node for ArrayLiteral {
    fn token_literal(&self) -> (r: String)
        ensures
            r@ == self.token.literal@,
    {
        self.token.literal.clone()
    }

    fn print_string(&self) -> (r: String)
        ensures
            r@ == "["@ + print_exprs_s(exprs_view(self.elements@)) + "]"@,
    {
        let mut out = String::from_str("[");
        let els = print_expressions(&self.elements);
        out.append(els.as_str());
        out.append("]");
        proof {
            assert(out@ =~= "["@ + print_exprs_s(exprs_view(self.elements@)) + "]"@);
        }
        out
    }
}

impl Node for IndexExpression {
    fn token_literal(&self) -> (r: String)
        ensures
            r@ == self.token.literal@,
    {
        self.token.literal.clone()
    }

    fn print_string(&self) -> (r: String)
        ensures
            r@ == "("@ + print_expr_s(expr_view(*self.left)) + "["@ + print_expr_s(
                expr_view(*self.index),
            ) + "])"@,
    {
        let mut out = String::from_str("(");
        let ls = print_expression(&self.left);
        out.append(ls.as_str());
        out.append("[");
        let is_ = print_expression(&self.index);
        out.append(is_.as_str());
        out.append("])");
        proof {
            assert(out@ =~= "("@ + print_expr_s(expr_view(*self.left)) + "["@ + print_expr_s(
                expr_view(*self.index),
            ) + "])"@);
        }
        out
    }
}

impl Node for HashLiteral {
    fn token_literal(&self) -> (r: String)
        ensures
            r@ == self.token.literal@,
    {
        self.token.literal.clone()
    }

    fn print_string(&self) -> (r: String)
        ensures
            r@ == "{"@ + print_pairs_s(pairs_view(self.pairs@)) + "}"@,
    {
        let mut out = String::from_str("{");
        let ps = print_expression_pairs(&self.pairs);
        out.append(ps.as_str());
        out.append("}");
        proof {
            assert(out@ =~= "{"@ + print_pairs_s(pairs_view(self.pairs@)) + "}"@);
        }
        out
    }
}

impl Node for DictLiteral {
    fn token_literal(&self) -> (r: String)
        ensures
            r@ == self.token.literal@,
    {
        self.token.literal.clone()
    }

    fn print_string(&self) -> (r: String)
        ensures
            r@ == "{"@ + print_pairs_s(pairs_view(self.pairs@)) + "}"@,
    {
        let mut out = String::from_str("{");
        let ps = print_expression_pairs(&self.pairs);
        out.append(ps.as_str());
        out.append("}");
        proof {
            assert(out@ =~= "{"@ + print_pairs_s(pairs_view(self.pairs@)) + "}"@);
        }
        out
    }
}

} // verus!
