//! The syntax tree that the parser builds and the lowerer consumes.

use vstd::prelude::*;

verus! {

/// The type of a variable, a parameter or a function result.
#[derive(Clone, Copy, Debug, PartialEq, Eq)]
pub enum Type {
    Int,
    Char,
    Void,
}

/// A prefix operator.
#[derive(Clone, Copy, Debug, PartialEq, Eq)]
pub enum UnaryOp {
    Negate,
    Not,
}

/// An infix operator.
#[derive(Clone, Copy, Debug, PartialEq, Eq)]
pub enum BinaryOp {
    Add,
    Sub,
    Multiply,
    Divide,
    And,
    Or,
    Equal,
    NotEqual,
    LessThan,
    LessThanOrEqual,
    GreaterThan,
    GreaterThanOrEqual,
}

/// An expression.
#[derive(Debug, PartialEq, Eq)]
#[allow(inconsistent_fields)]
pub enum Expression {
    IntLiteral(i32),
    /// Part of the tree, but produced by no parse and rejected by lowering.
    CharLiteral(char),
    Variable(String),
    Assign { target: Box<Expression>, value: Box<Expression> },
    Unary { operator: UnaryOp, oper: Box<Expression> },
    Binary { operator: BinaryOp, left_oper: Box<Expression>, right_oper: Box<Expression> },
    Call { name: String, args: Vec<Expression> },
}

/// A parameter of a function.
#[derive(Debug, PartialEq, Eq)]
pub struct Parameter {
    pub name: String,
    pub var_type: Type,
}

/// A function, or a variable with its initial value.
#[derive(Debug, PartialEq, Eq)]
pub enum Declaration {
    Function { name: String, ret_type: Type, params: Vec<Parameter>, body: Box<Statement> },
    InitVariable { name: String, var_type: Type, init: Expression },
}

/// A statement. `else if` is an `If` in the `else_branch` of another.
#[derive(Debug, PartialEq, Eq)]
pub enum Statement {
    Block { items: Vec<BlockItem> },
    Expr(Expression),
    Return(Option<Expression>),
    Break,
    Continue,
    If { cond: Expression, then_branch: Box<Statement>, else_branch: Option<Box<Statement>> },
    While { cond: Expression, body: Box<Statement> },
    /// All three clauses are required.
    For { init: Declaration, cond: Expression, inc: Expression, body: Box<Statement> },
}

/// What a block holds, in the order written.
#[derive(Debug, PartialEq, Eq)]
pub enum BlockItem {
    Decl(Declaration),
    Stmt(Statement),
}

/// A whole program: its top-level declarations in order.
#[derive(Debug, PartialEq, Eq)]
pub struct Program {
    pub items: Vec<Declaration>,
}

/// The mathematical value of an [`Expression`].
#[allow(inconsistent_fields)]
pub enum ExpressionView {
    IntLiteral(i32),
    CharLiteral(char),
    Variable(Seq<char>),
    Assign { target: Box<ExpressionView>, value: Box<ExpressionView> },
    Unary { operator: UnaryOp, oper: Box<ExpressionView> },
    Binary { operator: BinaryOp, left_oper: Box<ExpressionView>, right_oper: Box<ExpressionView> },
    Call { name: Seq<char>, args: Seq<ExpressionView> },
}

/// The mathematical value of a [`Parameter`].
pub struct ParameterView {
    pub name: Seq<char>,
    pub var_type: Type,
}

/// The mathematical value of a [`Declaration`].
pub enum DeclarationView {
    Function {
        name: Seq<char>,
        ret_type: Type,
        params: Seq<ParameterView>,
        body: Box<StatementView>,
    },
    InitVariable { name: Seq<char>, var_type: Type, init: ExpressionView },
}

/// The mathematical value of a [`Statement`].
pub enum StatementView {
    Block { items: Seq<BlockItemView> },
    Expr(ExpressionView),
    Return(Option<ExpressionView>),
    Break,
    Continue,
    If {
        cond: ExpressionView,
        then_branch: Box<StatementView>,
        else_branch: Option<Box<StatementView>>,
    },
    While { cond: ExpressionView, body: Box<StatementView> },
    For {
        init: DeclarationView,
        cond: ExpressionView,
        inc: ExpressionView,
        body: Box<StatementView>,
    },
}

/// The mathematical value of a [`BlockItem`].
pub enum BlockItemView {
    Decl(DeclarationView),
    Stmt(StatementView),
}

/// The mathematical value of a [`Program`].
pub struct ProgramView {
    pub items: Seq<DeclarationView>,
}

impl Expression {
    /// The value of this expression; `@` gives the same.
    pub open spec fn model(self) -> ExpressionView
        decreases self,
    {
        match self {
            Expression::IntLiteral(n) => ExpressionView::IntLiteral(n),
            Expression::CharLiteral(c) => ExpressionView::CharLiteral(c),
            Expression::Variable(name) => ExpressionView::Variable(name@),
            Expression::Assign { target, value } => ExpressionView::Assign {
                target: Box::new(target.model()),
                value: Box::new(value.model()),
            },
            Expression::Unary { operator, oper } => ExpressionView::Unary {
                operator,
                oper: Box::new(oper.model()),
            },
            Expression::Binary { operator, left_oper, right_oper } => ExpressionView::Binary {
                operator,
                left_oper: Box::new(left_oper.model()),
                right_oper: Box::new(right_oper.model()),
            },
            Expression::Call { name, args } => ExpressionView::Call {
                name: name@,
                args: Seq::new(
                    args@.len(),
                    |i: int|
                        if 0 <= i < args@.len() {
                            args@[i].model()
                        } else {
                            arbitrary()
                        },
                ),
            },
        }
    }
}

impl View for Expression {
    type V = ExpressionView;

    open spec fn view(&self) -> ExpressionView {
        self.model()
    }
}

impl View for Parameter {
    type V = ParameterView;

    open spec fn view(&self) -> ParameterView {
        ParameterView { name: self.name@, var_type: self.var_type }
    }
}

impl Clone for Parameter {
    fn clone(&self) -> (copy: Self)
        ensures
            copy@ == self@,
    {
        Parameter { name: self.name.clone(), var_type: self.var_type }
    }
}

/// The values of a sequence of parameters, one for one.
pub open spec fn parameter_views(params: Seq<Parameter>) -> Seq<ParameterView> {
    Seq::new(params.len(), |i: int| params[i]@)
}

impl Declaration {
    /// The value of this declaration; `@` gives the same.
    pub open spec fn model(self) -> DeclarationView
        decreases self,
    {
        match self {
            Declaration::Function { name, ret_type, params, body } => DeclarationView::Function {
                name: name@,
                ret_type,
                params: parameter_views(params@),
                body: Box::new(body.model()),
            },
            Declaration::InitVariable { name, var_type, init } => DeclarationView::InitVariable {
                name: name@,
                var_type,
                init: init@,
            },
        }
    }
}

impl Statement {
    /// The value of this statement; `@` gives the same.
    pub open spec fn model(self) -> StatementView
        decreases self,
    {
        match self {
            Statement::Block { items } => StatementView::Block {
                items: Seq::new(
                    items@.len(),
                    |i: int|
                        if 0 <= i < items@.len() {
                            items@[i].model()
                        } else {
                            arbitrary()
                        },
                ),
            },
            Statement::Expr(e) => StatementView::Expr(e@),
            Statement::Return(value) => StatementView::Return(
                match value {
                    Some(e) => Some(e@),
                    None => None,
                },
            ),
            Statement::Break => StatementView::Break,
            Statement::Continue => StatementView::Continue,
            Statement::If { cond, then_branch, else_branch } => StatementView::If {
                cond: cond@,
                then_branch: Box::new(then_branch.model()),
                else_branch: match else_branch {
                    Some(s) => Some(Box::new(s.model())),
                    None => None,
                },
            },
            Statement::While { cond, body } => StatementView::While {
                cond: cond@,
                body: Box::new(body.model()),
            },
            Statement::For { init, cond, inc, body } => StatementView::For {
                init: init.model(),
                cond: cond@,
                inc: inc@,
                body: Box::new(body.model()),
            },
        }
    }
}

impl BlockItem {
    /// The value of this item; `@` gives the same.
    pub open spec fn model(self) -> BlockItemView
        decreases self,
    {
        match self {
            BlockItem::Decl(d) => BlockItemView::Decl(d.model()),
            BlockItem::Stmt(s) => BlockItemView::Stmt(s.model()),
        }
    }
}

impl View for Declaration {
    type V = DeclarationView;

    open spec fn view(&self) -> DeclarationView {
        self.model()
    }
}

impl View for Statement {
    type V = StatementView;

    open spec fn view(&self) -> StatementView {
        self.model()
    }
}

impl View for BlockItem {
    type V = BlockItemView;

    open spec fn view(&self) -> BlockItemView {
        self.model()
    }
}

/// The values of a sequence of expressions, one for one.
pub open spec fn expression_views(exprs: Seq<Expression>) -> Seq<ExpressionView> {
    Seq::new(exprs.len(), |i: int| exprs[i]@)
}

/// The values of a sequence of block items, one for one.
pub open spec fn block_item_views(items: Seq<BlockItem>) -> Seq<BlockItemView> {
    Seq::new(items.len(), |i: int| items[i]@)
}

/// The values of a sequence of declarations, one for one.
pub open spec fn declaration_views(decls: Seq<Declaration>) -> Seq<DeclarationView> {
    Seq::new(decls.len(), |i: int| decls[i]@)
}

impl View for Program {
    type V = ProgramView;

    open spec fn view(&self) -> ProgramView {
        ProgramView { items: declaration_views(self.items@) }
    }
}

/// The value of a call is built from the values of its arguments.
pub proof fn lemma_call_view(name: String, args: Vec<Expression>)
    ensures
        (Expression::Call { name, args })@ == (ExpressionView::Call {
            name: name@,
            args: expression_views(args@),
        }),
{
    assert((Expression::Call { name, args })@->args =~= expression_views(args@));
}

/// The value of a block is built from the values of its items.
pub proof fn lemma_block_view(items: Vec<BlockItem>)
    ensures
        (Statement::Block { items })@ == (StatementView::Block {
            items: block_item_views(items@),
        }),
{
    assert((Statement::Block { items })@->items =~= block_item_views(items@));
}

} // verus!
