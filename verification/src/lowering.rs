//! What lowering means: functions from syntax trees to instructions.
//!
//! Temporaries are numbered from a counter that starts at zero in each
//! function; labels are named after a counter that runs through the whole
//! module. Each function here takes the counters as it finds them and gives
//! the instructions with the counters as it leaves them. Where lowering
//! stops at an error, it gives the error with the instructions that came
//! before it and the counters as they then stand: nothing is lowered after
//! an error. The executable lowerer is proved to compute exactly these
//! functions.

use vstd::prelude::*;
use crate::ast::{BlockItemView, DeclarationView, ExpressionView, StatementView};
use crate::ir::{FunView, GlobView, InstructionView, ValueView};

verus! {

/// Why lowering stopped.
#[derive(Clone, Copy, Debug, PartialEq, Eq)]
pub enum LowerError {
    /// `break` outside any loop.
    BreakOutsideLoop,
    /// `continue` outside any loop.
    ContinueOutsideLoop,
    /// The target of an assignment is not a variable.
    AssignToNonVariable,
    /// A function is declared inside a function.
    NestedFunction,
    /// Character literals cannot be lowered.
    CharLiteral,
    /// The function needs more temporaries than can be numbered.
    TooManyTemporaries,
    /// The module needs more labels than can be numbered.
    TooManyLabels,
}

/// The labels that `break` and `continue` jump to inside one loop.
pub struct LoopContextView {
    pub break_label: Seq<char>,
    pub continue_label: Seq<char>,
}

/// The counters and the enclosing loops, innermost last, at one point of
/// lowering.
pub struct Scope {
    pub temps: nat,
    pub labels: nat,
    pub loops: Seq<LoopContextView>,
}

/// What lowering an expression gives: the instructions that compute it,
/// where its value then lives, and the next free temporary.
pub struct LoweredExpression {
    pub code: Seq<InstructionView>,
    pub value: ValueView,
    pub temps: nat,
}

/// What lowering call arguments gives: the instructions that compute them
/// from left to right, where their values then live, and the next free
/// temporary.
pub struct LoweredArguments {
    pub code: Seq<InstructionView>,
    pub values: Seq<ValueView>,
    pub temps: nat,
}

/// What lowering a statement gives: its instructions and the counters
/// after it.
pub struct Lowered {
    pub code: Seq<InstructionView>,
    pub temps: nat,
    pub labels: nat,
}

/// Where lowering an expression stopped: the error, the instructions that
/// were lowered before it, and the next free temporary.
pub struct StoppedExpression {
    pub error: LowerError,
    pub code: Seq<InstructionView>,
    pub temps: nat,
}

/// Where lowering a statement stopped: the error, the instructions that
/// were lowered before it, and the counters.
pub struct Stopped {
    pub error: LowerError,
    pub code: Seq<InstructionView>,
    pub temps: nat,
    pub labels: nat,
}

impl StoppedExpression {
    /// This stop, after `code` was lowered before the expression.
    pub open spec fn after(self, code: Seq<InstructionView>) -> StoppedExpression {
        StoppedExpression { error: self.error, code: code + self.code, temps: self.temps }
    }

    /// This stop as the stop of a statement that had lowered `code` and
    /// counted its labels up to `labels` before the expression.
    pub open spec fn within(self, code: Seq<InstructionView>, labels: nat) -> Stopped {
        Stopped { error: self.error, code: code + self.code, temps: self.temps, labels }
    }
}

impl Stopped {
    /// This stop, after `code` was lowered before the statement.
    pub open spec fn after(self, code: Seq<InstructionView>) -> Stopped {
        Stopped {
            error: self.error,
            code: code + self.code,
            temps: self.temps,
            labels: self.labels,
        }
    }
}

/// The decimal digit for a number below ten (and `9` for any other).
pub open spec fn digit_char(d: nat) -> char {
    if d == 0 {
        '0'
    } else if d == 1 {
        '1'
    } else if d == 2 {
        '2'
    } else if d == 3 {
        '3'
    } else if d == 4 {
        '4'
    } else if d == 5 {
        '5'
    } else if d == 6 {
        '6'
    } else if d == 7 {
        '7'
    } else if d == 8 {
        '8'
    } else {
        '9'
    }
}

/// A number written in decimal, without leading zeros.
pub open spec fn decimal_digits(n: nat) -> Seq<char>
    decreases n,
{
    if n < 10 {
        seq![digit_char(n)]
    } else {
        decimal_digits(n / 10).push(digit_char(n % 10))
    }
}

/// The name of the label with number `n`: `L` and the number.
pub open spec fn label_name(n: nat) -> Seq<char> {
    seq!['L'] + decimal_digits(n)
}

/// Lowers an expression, with `temps` the next free temporary.
///
/// A literal or a variable is its own value and needs no instruction. An
/// operator or a call computes its operands from left to right and puts
/// its result into a fresh temporary. An assignment computes its value,
/// copies it into the variable, and has the variable as its value.
#[verifier::opaque]
pub open spec fn lower_expression(e: ExpressionView, temps: nat) -> Result<
    LoweredExpression,
    StoppedExpression,
>
    decreases e,
{
    match e {
        ExpressionView::IntLiteral(n) => Ok(
            LoweredExpression { code: Seq::empty(), value: ValueView::Const(n), temps },
        ),
        ExpressionView::CharLiteral(_) => Err(
            StoppedExpression { error: LowerError::CharLiteral, code: Seq::empty(), temps },
        ),
        ExpressionView::Variable(name) => Ok(
            LoweredExpression { code: Seq::empty(), value: ValueView::Var(name), temps },
        ),
        ExpressionView::Assign { target, value } => match lower_expression(*value, temps) {
            Ok(v) => match *target {
                ExpressionView::Variable(name) => Ok(
                    LoweredExpression {
                        code: v.code.push(InstructionView::Assign(ValueView::Var(name), v.value)),
                        value: ValueView::Var(name),
                        temps: v.temps,
                    },
                ),
                _ => Err(
                    StoppedExpression {
                        error: LowerError::AssignToNonVariable,
                        code: v.code,
                        temps: v.temps,
                    },
                ),
            },
            Err(stopped) => Err(stopped),
        },
        ExpressionView::Unary { operator, oper } => match lower_expression(*oper, temps) {
            Ok(o) => if o.temps >= usize::MAX {
                Err(
                    StoppedExpression {
                        error: LowerError::TooManyTemporaries,
                        code: o.code,
                        temps: o.temps,
                    },
                )
            } else {
                Ok(
                    LoweredExpression {
                        code: o.code.push(
                            InstructionView::Unary {
                                dest: ValueView::Temp(o.temps),
                                operator,
                                oper: o.value,
                            },
                        ),
                        value: ValueView::Temp(o.temps),
                        temps: o.temps + 1,
                    },
                )
            },
            Err(stopped) => Err(stopped),
        },
        ExpressionView::Binary { operator, left_oper, right_oper } => match lower_expression(
            *left_oper,
            temps,
        ) {
            Ok(l) => match lower_expression(*right_oper, l.temps) {
                Ok(r) => if r.temps >= usize::MAX {
                    Err(
                        StoppedExpression {
                            error: LowerError::TooManyTemporaries,
                            code: l.code + r.code,
                            temps: r.temps,
                        },
                    )
                } else {
                    Ok(
                        LoweredExpression {
                            code: (l.code + r.code).push(
                                InstructionView::Binary {
                                    dest: ValueView::Temp(r.temps),
                                    operator,
                                    left_oper: l.value,
                                    right_oper: r.value,
                                },
                            ),
                            value: ValueView::Temp(r.temps),
                            temps: r.temps + 1,
                        },
                    )
                },
                Err(stopped) => Err(stopped.after(l.code)),
            },
            Err(stopped) => Err(stopped),
        },
        ExpressionView::Call { name, args } => match lower_arguments(args, temps) {
            Ok(a) => if a.temps >= usize::MAX {
                Err(
                    StoppedExpression {
                        error: LowerError::TooManyTemporaries,
                        code: a.code,
                        temps: a.temps,
                    },
                )
            } else {
                Ok(
                    LoweredExpression {
                        code: a.code.push(
                            InstructionView::Call {
                                dest: ValueView::Temp(a.temps),
                                name,
                                args: a.values,
                            },
                        ),
                        value: ValueView::Temp(a.temps),
                        temps: a.temps + 1,
                    },
                )
            },
            Err(stopped) => Err(stopped),
        },
    }
}

/// Lowers the arguments of a call from left to right, with `temps` the
/// next free temporary.
#[verifier::opaque]
pub open spec fn lower_arguments(args: Seq<ExpressionView>, temps: nat) -> Result<
    LoweredArguments,
    StoppedExpression,
>
    decreases args,
{
    if args.len() == 0 {
        Ok(LoweredArguments { code: Seq::empty(), values: Seq::empty(), temps })
    } else {
        match lower_arguments(args.drop_last(), temps) {
            Ok(front) => match lower_expression(args.last(), front.temps) {
                Ok(last) => Ok(
                    LoweredArguments {
                        code: front.code + last.code,
                        values: front.values.push(last.value),
                        temps: last.temps,
                    },
                ),
                Err(stopped) => Err(stopped.after(front.code)),
            },
            Err(stopped) => Err(stopped),
        }
    }
}

/// Lowers a declaration inside a function: its initial value is computed
/// and copied into the variable. A function cannot be declared there.
pub open spec fn lower_inner_declaration(d: DeclarationView, scope: Scope) -> Result<
    Lowered,
    Stopped,
> {
    match d {
        DeclarationView::InitVariable { name, var_type, init } => match lower_expression(
            init,
            scope.temps,
        ) {
            Ok(v) => Ok(
                Lowered {
                    code: v.code.push(InstructionView::Assign(ValueView::Var(name), v.value)),
                    temps: v.temps,
                    labels: scope.labels,
                },
            ),
            Err(stopped) => Err(stopped.within(Seq::empty(), scope.labels)),
        },
        DeclarationView::Function { .. } => Err(stop(LowerError::NestedFunction, scope)),
    }
}

/// The scope `scope` with the counters of `done`, which was lowered in it.
pub open spec fn following(scope: Scope, done: Lowered) -> Scope {
    Scope { temps: done.temps, labels: done.labels, loops: scope.loops }
}

/// The stop at `error` in `scope`, before anything was lowered.
pub open spec fn stop(error: LowerError, scope: Scope) -> Stopped {
    Stopped { error, code: Seq::empty(), temps: scope.temps, labels: scope.labels }
}

/// Lowers a statement in `scope`.
///
/// `break` and `continue` jump to the labels of the innermost enclosing
/// loop, and cannot be lowered outside one.
#[verifier::opaque]
pub open spec fn lower_statement(s: StatementView, scope: Scope) -> Result<Lowered, Stopped>
    decreases s, 1nat,
{
    match s {
        StatementView::Block { items } => lower_items(items, scope),
        StatementView::Expr(e) => match lower_expression(e, scope.temps) {
            Ok(v) => Ok(Lowered { code: v.code, temps: v.temps, labels: scope.labels }),
            Err(stopped) => Err(stopped.within(Seq::empty(), scope.labels)),
        },
        StatementView::Return(Some(e)) => match lower_expression(e, scope.temps) {
            Ok(v) => Ok(
                Lowered {
                    code: v.code.push(InstructionView::Return(Some(v.value))),
                    temps: v.temps,
                    labels: scope.labels,
                },
            ),
            Err(stopped) => Err(stopped.within(Seq::empty(), scope.labels)),
        },
        StatementView::Return(None) => Ok(
            Lowered {
                code: seq![InstructionView::Return(None)],
                temps: scope.temps,
                labels: scope.labels,
            },
        ),
        StatementView::Break => if scope.loops.len() == 0 {
            Err(stop(LowerError::BreakOutsideLoop, scope))
        } else {
            Ok(
                Lowered {
                    code: seq![InstructionView::Goto(scope.loops.last().break_label)],
                    temps: scope.temps,
                    labels: scope.labels,
                },
            )
        },
        StatementView::Continue => if scope.loops.len() == 0 {
            Err(stop(LowerError::ContinueOutsideLoop, scope))
        } else {
            Ok(
                Lowered {
                    code: seq![InstructionView::Goto(scope.loops.last().continue_label)],
                    temps: scope.temps,
                    labels: scope.labels,
                },
            )
        },
        StatementView::If { .. } => lower_if(s, scope),
        StatementView::While { .. } => lower_while(s, scope),
        StatementView::For { .. } => lower_for(s, scope),
    }
}

/// Lowers the `if` statement `s` in `scope`.
///
/// Three fresh labels are taken first: then, else, end. The condition is
/// computed; where it holds, control jumps to the then label, and
/// otherwise, by a jump of its own, to the else label. The first branch
/// ends with a jump to the end label; the second, where there is one,
/// runs into it.
#[verifier::opaque]
pub open spec fn lower_if(s: StatementView, scope: Scope) -> Result<Lowered, Stopped>
    recommends
        s is If,
    decreases s, 0nat,
{
    match s {
        StatementView::If { cond, then_branch, else_branch } => if scope.labels + 3
            > usize::MAX {
            Err(stop(LowerError::TooManyLabels, scope))
        } else {
            let then_label = label_name(scope.labels);
            let else_label = label_name(scope.labels + 1);
            let end_label = label_name(scope.labels + 2);
            match lower_expression(cond, scope.temps) {
                Ok(c) => {
                    let branch = c.code + seq![
                        InstructionView::IfGoto { cond: c.value, label: then_label },
                        InstructionView::Goto(else_label),
                        InstructionView::Label(then_label),
                    ];
                    match lower_statement(
                        *then_branch,
                        Scope { temps: c.temps, labels: scope.labels + 3, loops: scope.loops },
                    ) {
                        Ok(t) => {
                            let first = branch + t.code + seq![
                                InstructionView::Goto(end_label),
                                InstructionView::Label(else_label),
                            ];
                            match (match else_branch {
                                Some(other) => lower_statement(*other, following(scope, t)),
                                None => Ok(
                                    Lowered {
                                        code: Seq::empty(),
                                        temps: t.temps,
                                        labels: t.labels,
                                    },
                                ),
                            }) {
                                Ok(e) => Ok(
                                    Lowered {
                                        code: first + e.code + seq![
                                            InstructionView::Label(end_label),
                                        ],
                                        temps: e.temps,
                                        labels: e.labels,
                                    },
                                ),
                                Err(stopped) => Err(stopped.after(first)),
                            }
                        },
                        Err(stopped) => Err(stopped.after(branch)),
                    }
                },
                Err(stopped) => Err(stopped.within(Seq::empty(), scope.labels + 3)),
            }
        },
        _ => Ok(Lowered { code: Seq::empty(), temps: scope.temps, labels: scope.labels }),
    }
}

/// Lowers the `while` statement `s` in `scope`.
///
/// Three fresh labels are taken first: condition, body, end. Inside the
/// loop `break` jumps to the end label and `continue` to the condition
/// label. The condition is computed at its label; where it holds, control
/// jumps to the body, which ends with a jump back to the condition, and
/// otherwise to the end.
#[verifier::opaque]
pub open spec fn lower_while(s: StatementView, scope: Scope) -> Result<Lowered, Stopped>
    recommends
        s is While,
    decreases s, 0nat,
{
    match s {
        StatementView::While { cond, body } => if scope.labels + 3 > usize::MAX {
            Err(stop(LowerError::TooManyLabels, scope))
        } else {
            let cond_label = label_name(scope.labels);
            let loop_label = label_name(scope.labels + 1);
            let end_label = label_name(scope.labels + 2);
            let inside = scope.loops.push(
                LoopContextView { break_label: end_label, continue_label: cond_label },
            );
            let head = seq![
                InstructionView::Goto(cond_label),
                InstructionView::Label(cond_label),
            ];
            match lower_expression(cond, scope.temps) {
                Ok(c) => {
                    let branch = head + c.code + seq![
                        InstructionView::IfGoto { cond: c.value, label: loop_label },
                        InstructionView::Goto(end_label),
                        InstructionView::Label(loop_label),
                    ];
                    match lower_statement(
                        *body,
                        Scope { temps: c.temps, labels: scope.labels + 3, loops: inside },
                    ) {
                        Ok(b) => Ok(
                            Lowered {
                                code: branch + b.code + seq![
                                    InstructionView::Goto(cond_label),
                                    InstructionView::Label(end_label),
                                ],
                                temps: b.temps,
                                labels: b.labels,
                            },
                        ),
                        Err(stopped) => Err(stopped.after(branch)),
                    }
                },
                Err(stopped) => Err(stopped.within(head, scope.labels + 3)),
            }
        },
        _ => Ok(Lowered { code: Seq::empty(), temps: scope.temps, labels: scope.labels }),
    }
}

/// Lowers the `for` statement `s` in `scope`.
///
/// Four fresh labels are taken first: condition, body, increment, end.
/// Inside the loop `break` jumps to the end label and `continue` to the
/// increment label, so that the increment runs before the condition is
/// tested again. The declaration is lowered before the loop; the rest is
/// as in a `while`, with the increment between the body and the jump back.
#[verifier::opaque]
pub open spec fn lower_for(s: StatementView, scope: Scope) -> Result<Lowered, Stopped>
    recommends
        s is For,
    decreases s, 0nat,
{
    match s {
        StatementView::For { init, cond, inc, body } => if scope.labels + 4 > usize::MAX {
            Err(stop(LowerError::TooManyLabels, scope))
        } else {
            let cond_label = label_name(scope.labels);
            let loop_label = label_name(scope.labels + 1);
            let inc_label = label_name(scope.labels + 2);
            let end_label = label_name(scope.labels + 3);
            let inside = scope.loops.push(
                LoopContextView { break_label: end_label, continue_label: inc_label },
            );
            match lower_inner_declaration(
                init,
                Scope { temps: scope.temps, labels: scope.labels + 4, loops: inside },
            ) {
                Ok(i) => {
                    let head = i.code + seq![
                        InstructionView::Goto(cond_label),
                        InstructionView::Label(cond_label),
                    ];
                    match lower_expression(cond, i.temps) {
                        Ok(c) => {
                            let branch = head + c.code + seq![
                                InstructionView::IfGoto { cond: c.value, label: loop_label },
                                InstructionView::Goto(end_label),
                                InstructionView::Label(loop_label),
                            ];
                            match lower_statement(
                                *body,
                                Scope { temps: c.temps, labels: i.labels, loops: inside },
                            ) {
                                Ok(b) => {
                                    let step = branch + b.code + seq![
                                        InstructionView::Label(inc_label),
                                    ];
                                    match lower_expression(inc, b.temps) {
                                        Ok(n) => Ok(
                                            Lowered {
                                                code: step + n.code + seq![
                                                    InstructionView::Goto(cond_label),
                                                    InstructionView::Label(end_label),
                                                ],
                                                temps: n.temps,
                                                labels: b.labels,
                                            },
                                        ),
                                        Err(stopped) => Err(stopped.within(step, b.labels)),
                                    }
                                },
                                Err(stopped) => Err(stopped.after(branch)),
                            }
                        },
                        Err(stopped) => Err(stopped.within(head, i.labels)),
                    }
                },
                Err(stopped) => Err(stopped),
            }
        },
        _ => Ok(Lowered { code: Seq::empty(), temps: scope.temps, labels: scope.labels }),
    }
}

/// Lowers the items of a block in order, in `scope`.
#[verifier::opaque]
pub open spec fn lower_items(items: Seq<BlockItemView>, scope: Scope) -> Result<Lowered, Stopped>
    decreases items, 0nat,
{
    if items.len() == 0 {
        Ok(Lowered { code: Seq::empty(), temps: scope.temps, labels: scope.labels })
    } else {
        match lower_items(items.drop_last(), scope) {
            Ok(front) => match (match items.last() {
                BlockItemView::Decl(d) => lower_inner_declaration(d, following(scope, front)),
                BlockItemView::Stmt(s) => lower_statement(s, following(scope, front)),
            }) {
                Ok(last) => Ok(
                    Lowered {
                        code: front.code + last.code,
                        temps: last.temps,
                        labels: last.labels,
                    },
                ),
                Err(stopped) => Err(stopped.after(front.code)),
            },
            Err(stopped) => Err(stopped),
        }
    }
}

/// All that a lowerer holds: the module so far, the instructions of the
/// function being lowered, the counters and the enclosing loops.
pub struct LowererView {
    pub globals: Seq<GlobView>,
    pub functions: Seq<FunView>,
    pub instructions: Seq<InstructionView>,
    pub temp_count: nat,
    pub label_count: nat,
    pub loop_stack: Seq<LoopContextView>,
}

/// A lowerer that has lowered nothing.
pub open spec fn fresh() -> LowererView {
    LowererView {
        globals: Seq::empty(),
        functions: Seq::empty(),
        instructions: Seq::empty(),
        temp_count: 0,
        label_count: 0,
        loop_stack: Seq::empty(),
    }
}

/// The counters and loops of a lowerer.
pub open spec fn scope_of(state: LowererView) -> Scope {
    Scope { temps: state.temp_count, labels: state.label_count, loops: state.loop_stack }
}

/// Lowers a top-level declaration: the lowerer after it, or the error with
/// the lowerer as it stands where lowering stopped.
///
/// A function starts with no temporaries, no instructions and no enclosing
/// loop, and is added to the module with the instructions of its body. A
/// variable has its initial value computed where the lowerer stands, and
/// is added to the module with where that value lives. Where lowering
/// stops, nothing is added to the module.
pub open spec fn lower_declaration(d: DeclarationView, state: LowererView) -> Result<
    LowererView,
    (LowerError, LowererView),
> {
    match d {
        DeclarationView::Function { name, ret_type, params, body } => match lower_statement(
            *body,
            Scope { temps: 0, labels: state.label_count, loops: Seq::empty() },
        ) {
            Ok(b) => Ok(
                LowererView {
                    globals: state.globals,
                    functions: state.functions.push(
                        FunView { name, ret_type, params, body: b.code },
                    ),
                    instructions: b.code,
                    temp_count: b.temps,
                    label_count: b.labels,
                    loop_stack: Seq::empty(),
                },
            ),
            Err(stopped) => Err(
                (
                    stopped.error,
                    LowererView {
                        globals: state.globals,
                        functions: state.functions,
                        instructions: stopped.code,
                        temp_count: stopped.temps,
                        label_count: stopped.labels,
                        loop_stack: Seq::empty(),
                    },
                ),
            ),
        },
        DeclarationView::InitVariable { name, var_type, init } => match lower_expression(
            init,
            state.temp_count,
        ) {
            Ok(v) => Ok(
                LowererView {
                    globals: state.globals.push(GlobView { name, var_type, init: v.value }),
                    functions: state.functions,
                    instructions: state.instructions + v.code,
                    temp_count: v.temps,
                    label_count: state.label_count,
                    loop_stack: state.loop_stack,
                },
            ),
            Err(stopped) => Err(
                (
                    stopped.error,
                    LowererView {
                        globals: state.globals,
                        functions: state.functions,
                        instructions: state.instructions + stopped.code,
                        temp_count: stopped.temps,
                        label_count: state.label_count,
                        loop_stack: state.loop_stack,
                    },
                ),
            ),
        },
    }
}

/// Lowers top-level declarations in order, up to the first that cannot be
/// lowered.
pub open spec fn lower_declarations(items: Seq<DeclarationView>, state: LowererView) -> Result<
    LowererView,
    (LowerError, LowererView),
>
    decreases items.len(),
{
    if items.len() == 0 {
        Ok(state)
    } else {
        match lower_declarations(items.drop_last(), state) {
            Ok(front) => lower_declaration(items.last(), front),
            Err(stopped) => Err(stopped),
        }
    }
}

/// Where the first arguments of a call cannot be lowered, the call's
/// arguments cannot, and for the same reason.
pub proof fn lemma_lower_arguments_stops(args: Seq<ExpressionView>, k: int, temps: nat)
    requires
        0 <= k <= args.len(),
        lower_arguments(args.take(k), temps) is Err,
    ensures
        lower_arguments(args, temps) == lower_arguments(args.take(k), temps),
    decreases args.len() - k,
{
    reveal(lower_arguments);
    if k == args.len() {
        assert(args.take(k) =~= args);
    } else {
        assert(args.take(k + 1).drop_last() =~= args.take(k));
        lemma_lower_arguments_stops(args, k + 1, temps);
    }
}

/// Where the first items of a block cannot be lowered, the block cannot,
/// and for the same reason.
pub proof fn lemma_lower_items_stops(items: Seq<BlockItemView>, k: int, scope: Scope)
    requires
        0 <= k <= items.len(),
        lower_items(items.take(k), scope) is Err,
    ensures
        lower_items(items, scope) == lower_items(items.take(k), scope),
    decreases items.len() - k,
{
    reveal(lower_items);
    if k == items.len() {
        assert(items.take(k) =~= items);
    } else {
        assert(items.take(k + 1).drop_last() =~= items.take(k));
        lemma_lower_items_stops(items, k + 1, scope);
    }
}

/// Where the first declarations of a program cannot be lowered, the
/// program cannot, and for the same reason.
pub proof fn lemma_lower_declarations_stops(
    items: Seq<DeclarationView>,
    k: int,
    state: LowererView,
)
    requires
        0 <= k <= items.len(),
        lower_declarations(items.take(k), state) is Err,
    ensures
        lower_declarations(items, state) == lower_declarations(items.take(k), state),
    decreases items.len() - k,
{
    if k == items.len() {
        assert(items.take(k) =~= items);
    } else {
        assert(items.take(k + 1).drop_last() =~= items.take(k));
        lemma_lower_declarations_stops(items, k + 1, state);
    }
}

} // verus!
