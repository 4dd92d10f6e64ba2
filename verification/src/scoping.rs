//! Temporaries are written once, and before they are read.
//!
//! In the instructions of every lowered function, a temporary that an
//! instruction reads is the destination of an instruction that stands
//! earlier in the same function, and no temporary is the destination of
//! two instructions.

use vstd::prelude::*;
use crate::ast::{BlockItemView, DeclarationView, ExpressionView, StatementView};
use crate::ir::{FunView, InstructionView, ValueView};
use crate::lowering::{
    following, label_name, lower_arguments, lower_declaration, lower_declarations,
    lower_expression, lower_for, lower_if, lower_inner_declaration, lower_items, lower_statement,
    lower_while, LoopContextView, LowererView, Scope,
};

verus! {

/// The values that an instruction reads.
pub open spec fn operands(instr: InstructionView) -> Seq<ValueView> {
    match instr {
        InstructionView::Assign(_, src) => seq![src],
        InstructionView::Unary { oper, .. } => seq![oper],
        InstructionView::Binary { left_oper, right_oper, .. } => seq![left_oper, right_oper],
        InstructionView::Call { args, .. } => args,
        InstructionView::IfGoto { cond, .. } => seq![cond],
        InstructionView::Return(Some(value)) => seq![value],
        _ => Seq::empty(),
    }
}

/// The value that an instruction writes, if it writes one.
pub open spec fn destination(instr: InstructionView) -> Option<ValueView> {
    match instr {
        InstructionView::Assign(dest, _) => Some(dest),
        InstructionView::Unary { dest, .. } => Some(dest),
        InstructionView::Binary { dest, .. } => Some(dest),
        InstructionView::Call { dest, .. } => Some(dest),
        _ => None,
    }
}

/// Whether `instr` reads the temporary `t`.
pub open spec fn reads_temp(instr: InstructionView, t: nat) -> bool {
    operands(instr).contains(ValueView::Temp(t))
}

/// Whether `instr` writes the temporary `t`.
pub open spec fn writes_temp(instr: InstructionView, t: nat) -> bool {
    destination(instr) == Some(ValueView::Temp(t))
}

/// Whether one of the first `at` instructions of `code` writes the
/// temporary `t`.
pub open spec fn written_before(code: Seq<InstructionView>, at: int, t: nat) -> bool {
    exists|j: int| 0 <= j < at && j < code.len() && #[trigger] writes_temp(code[j], t)
}

/// Whether every temporary that an instruction of `code` reads is written
/// by an instruction that stands before it in `code`.
pub open spec fn temps_written_before_read(code: Seq<InstructionView>) -> bool {
    forall|i: int, t: nat|
        0 <= i < code.len() && #[trigger] reads_temp(code[i], t) ==> written_before(code, i, t)
}

/// Whether `value`, where it is a temporary, is written somewhere in
/// `code`.
pub open spec fn value_written(code: Seq<InstructionView>, value: ValueView) -> bool {
    value matches ValueView::Temp(t) ==> written_before(code, code.len() as int, t)
}

/// Whether every function of `functions` writes its temporaries before it
/// reads them.
pub open spec fn all_write_before_read(functions: Seq<FunView>) -> bool {
    forall|i: int|
        0 <= i < functions.len() ==> temps_written_before_read(#[trigger] functions[i].body)
}

/// What is written in `a` is written in `a + b`, as early.
pub proof fn lemma_written_in_front(
    a: Seq<InstructionView>,
    b: Seq<InstructionView>,
    at: int,
    t: nat,
)
    requires
        written_before(a, at, t),
    ensures
        written_before(a + b, at, t),
{
    let j = choose|j: int| 0 <= j < at && j < a.len() && #[trigger] writes_temp(a[j], t);
    assert((a + b)[j] == a[j]);
}

/// What is written in `b` is written in `a + b`, later by the length of
/// `a`.
pub proof fn lemma_written_behind(
    a: Seq<InstructionView>,
    b: Seq<InstructionView>,
    at: int,
    t: nat,
)
    requires
        written_before(b, at, t),
    ensures
        written_before(a + b, a.len() + at, t),
{
    let j = choose|j: int| 0 <= j < at && j < b.len() && #[trigger] writes_temp(b[j], t);
    assert((a + b)[a.len() + j] == b[j]);
}

/// A value that is written in `a` is written in `a + b`.
pub proof fn lemma_value_written_in_front(
    a: Seq<InstructionView>,
    b: Seq<InstructionView>,
    value: ValueView,
)
    requires
        value_written(a, value),
    ensures
        value_written(a + b, value),
{
    if let ValueView::Temp(t) = value {
        let j = choose|j: int| 0 <= j < a.len() && #[trigger] writes_temp(a[j], t);
        assert((a + b)[j] == a[j]);
    }
}

/// A value that is written in `b` is written in `a + b`.
pub proof fn lemma_value_written_behind(
    a: Seq<InstructionView>,
    b: Seq<InstructionView>,
    value: ValueView,
)
    requires
        value_written(b, value),
    ensures
        value_written(a + b, value),
{
    if let ValueView::Temp(t) = value {
        lemma_written_behind(a, b, b.len() as int, t);
    }
}

/// Instructions may follow others where each temporary that they read is
/// written by the others or before it among themselves.
pub proof fn lemma_append(a: Seq<InstructionView>, b: Seq<InstructionView>)
    requires
        temps_written_before_read(a),
        forall|i: int, t: nat|
            0 <= i < b.len() && #[trigger] reads_temp(b[i], t) ==> written_before(
                a,
                a.len() as int,
                t,
            ) || written_before(b, i, t),
    ensures
        temps_written_before_read(a + b),
{
    let ab = a + b;
    assert forall|i: int, t: nat| 0 <= i < ab.len() && #[trigger] reads_temp(ab[i], t) implies
        written_before(ab, i, t) by {
        if i < a.len() {
            assert(ab[i] == a[i]);
            lemma_written_in_front(a, b, i, t);
        } else {
            let k = i - a.len();
            assert(ab[i] == b[k]);
            if written_before(b, k, t) {
                lemma_written_behind(a, b, k, t);
            } else {
                lemma_written_in_front(a, b, a.len() as int, t);
                let j = choose|j: int|
                    0 <= j < a.len() && j < ab.len() && #[trigger] writes_temp(ab[j], t);
                assert(0 <= j < i && j < ab.len() && writes_temp(ab[j], t));
            }
        }
    }
}

/// Two runs of instructions that each write their temporaries before they
/// read them do so one after the other.
pub proof fn lemma_concat(a: Seq<InstructionView>, b: Seq<InstructionView>)
    requires
        temps_written_before_read(a),
        temps_written_before_read(b),
    ensures
        temps_written_before_read(a + b),
{
    lemma_append(a, b);
}

/// An instruction may follow others where it reads only what they write.
pub proof fn lemma_push(a: Seq<InstructionView>, instr: InstructionView)
    requires
        temps_written_before_read(a),
        forall|k: int|
            0 <= k < operands(instr).len() ==> value_written(a, #[trigger] operands(instr)[k]),
    ensures
        temps_written_before_read(a.push(instr)),
        temps_written_before_read(a + seq![instr]),
{
    let b = seq![instr];
    assert forall|i: int, t: nat| 0 <= i < b.len() && #[trigger] reads_temp(b[i], t) implies
        written_before(a, a.len() as int, t) || written_before(b, i, t) by {
        let k = choose|k: int|
            0 <= k < operands(instr).len() && operands(instr)[k] == ValueView::Temp(t);
        assert(value_written(a, operands(instr)[k]));
    }
    lemma_append(a, b);
    assert(a.push(instr) =~= a + b);
}

/// Jumps and labels may follow any instructions.
pub proof fn lemma_append_control(a: Seq<InstructionView>, b: Seq<InstructionView>)
    requires
        temps_written_before_read(a),
        forall|i: int| 0 <= i < b.len() ==> operands(#[trigger] b[i]).len() == 0,
    ensures
        temps_written_before_read(a + b),
{
    assert forall|i: int, t: nat| 0 <= i < b.len() && #[trigger] reads_temp(b[i], t) implies
        written_before(a, a.len() as int, t) || written_before(b, i, t) by {
        assert(operands(b[i]).len() == 0);
    }
    lemma_append(a, b);
}

/// A branch on a value that `a` writes, and jumps and labels after it, may
/// follow `a`.
pub proof fn lemma_append_branch(
    a: Seq<InstructionView>,
    cond: ValueView,
    label: Seq<char>,
    second: InstructionView,
    third: InstructionView,
)
    requires
        temps_written_before_read(a),
        value_written(a, cond),
        operands(second).len() == 0,
        operands(third).len() == 0,
    ensures
        temps_written_before_read(
            a + seq![InstructionView::IfGoto { cond, label }, second, third],
        ),
{
    let b = seq![InstructionView::IfGoto { cond, label }, second, third];
    assert forall|i: int, t: nat| 0 <= i < b.len() && #[trigger] reads_temp(b[i], t) implies
        written_before(a, a.len() as int, t) || written_before(b, i, t) by {
        if i == 0 {
            assert(operands(b[0]) =~= seq![cond]);
            assert(cond == ValueView::Temp(t));
        } else {
            assert(operands(b[i]).len() == 0);
        }
    }
    lemma_append(a, b);
}

/// The instructions of a lowered expression write their temporaries before
/// they read them, and write the value of the expression where it is a
/// temporary.
pub proof fn lemma_expression_writes_before_read(e: ExpressionView, temps: nat)
    ensures
        lower_expression(e, temps) matches Ok(l) ==> temps_written_before_read(l.code)
            && value_written(l.code, l.value),
    decreases e,
{
    reveal(lower_expression);
    reveal(lower_arguments);
    let empty = Seq::<InstructionView>::empty();
    match e {
        ExpressionView::IntLiteral(_) => {},
        ExpressionView::CharLiteral(_) => {},
        ExpressionView::Variable(_) => {},
        ExpressionView::Assign { target, value } => {
            lemma_expression_writes_before_read(*value, temps);
            if let Ok(v) = lower_expression(*value, temps) {
                if let ExpressionView::Variable(name) = *target {
                    let instr = InstructionView::Assign(ValueView::Var(name), v.value);
                    assert(operands(instr) =~= seq![v.value]);
                    lemma_push(v.code, instr);
                }
            }
        },
        ExpressionView::Unary { operator, oper } => {
            lemma_expression_writes_before_read(*oper, temps);
            if let Ok(o) = lower_expression(*oper, temps) {
                let instr = InstructionView::Unary {
                    dest: ValueView::Temp(o.temps),
                    operator,
                    oper: o.value,
                };
                assert(operands(instr) =~= seq![o.value]);
                lemma_push(o.code, instr);
                let code = o.code.push(instr);
                assert(writes_temp(code[o.code.len() as int], o.temps));
            }
        },
        ExpressionView::Binary { operator, left_oper, right_oper } => {
            lemma_expression_writes_before_read(*left_oper, temps);
            if let Ok(l) = lower_expression(*left_oper, temps) {
                lemma_expression_writes_before_read(*right_oper, l.temps);
                if let Ok(r) = lower_expression(*right_oper, l.temps) {
                    let instr = InstructionView::Binary {
                        dest: ValueView::Temp(r.temps),
                        operator,
                        left_oper: l.value,
                        right_oper: r.value,
                    };
                    let both = l.code + r.code;
                    lemma_concat(l.code, r.code);
                    lemma_value_written_in_front(l.code, r.code, l.value);
                    lemma_value_written_behind(l.code, r.code, r.value);
                    assert(operands(instr) =~= seq![l.value, r.value]);
                    lemma_push(both, instr);
                    let code = both.push(instr);
                    assert(writes_temp(code[both.len() as int], r.temps));
                }
            }
        },
        ExpressionView::Call { name, args } => {
            lemma_arguments_write_before_read(args, temps);
            if let Ok(a) = lower_arguments(args, temps) {
                let instr = InstructionView::Call {
                    dest: ValueView::Temp(a.temps),
                    name,
                    args: a.values,
                };
                lemma_push(a.code, instr);
                let code = a.code.push(instr);
                assert(writes_temp(code[a.code.len() as int], a.temps));
            }
        },
    }
}

/// The instructions of lowered arguments write their temporaries before
/// they read them, and write the value of each argument where it is a
/// temporary.
pub proof fn lemma_arguments_write_before_read(args: Seq<ExpressionView>, temps: nat)
    ensures
        lower_arguments(args, temps) matches Ok(a) ==> temps_written_before_read(a.code) && (
        forall|k: int| 0 <= k < a.values.len() ==> value_written(a.code, #[trigger] a.values[k])),
    decreases args,
{
    reveal(lower_expression);
    reveal(lower_arguments);
    if args.len() > 0 {
        lemma_arguments_write_before_read(args.drop_last(), temps);
        if let Ok(front) = lower_arguments(args.drop_last(), temps) {
            lemma_expression_writes_before_read(args.last(), front.temps);
            if let Ok(last) = lower_expression(args.last(), front.temps) {
                let code = front.code + last.code;
                let values = front.values.push(last.value);
                lemma_concat(front.code, last.code);
                assert forall|k: int| 0 <= k < values.len() implies value_written(
                    code,
                    #[trigger] values[k],
                ) by {
                    if k < front.values.len() {
                        assert(values[k] == front.values[k]);
                        lemma_value_written_in_front(front.code, last.code, front.values[k]);
                    } else {
                        lemma_value_written_behind(front.code, last.code, last.value);
                    }
                }
            }
        }
    }
}

/// The instructions of a lowered local declaration write their
/// temporaries before they read them.
pub proof fn lemma_inner_declaration_writes_before_read(d: DeclarationView, scope: Scope)
    ensures
        lower_inner_declaration(d, scope) matches Ok(l) ==> temps_written_before_read(l.code),
{
    if let DeclarationView::InitVariable { name, var_type, init } = d {
        lemma_expression_writes_before_read(init, scope.temps);
        if let Ok(v) = lower_expression(init, scope.temps) {
            let instr = InstructionView::Assign(ValueView::Var(name), v.value);
            assert(operands(instr) =~= seq![v.value]);
            lemma_push(v.code, instr);
        }
    }
}

/// The instructions of a lowered statement write their temporaries before
/// they read them.
pub proof fn lemma_statement_writes_before_read(s: StatementView, scope: Scope)
    ensures
        lower_statement(s, scope) matches Ok(l) ==> temps_written_before_read(l.code),
    decreases s, 1nat,
{
    reveal(lower_statement);
    reveal(lower_items);
    reveal(lower_if);
    reveal(lower_while);
    reveal(lower_for);
    match s {
        StatementView::Block { items } => {
            lemma_items_write_before_read(items, scope);
        },
        StatementView::Expr(e) => {
            lemma_expression_writes_before_read(e, scope.temps);
        },
        StatementView::Return(Some(e)) => {
            lemma_expression_writes_before_read(e, scope.temps);
            if let Ok(v) = lower_expression(e, scope.temps) {
                let instr = InstructionView::Return(Some(v.value));
                assert(operands(instr) =~= seq![v.value]);
                lemma_push(v.code, instr);
            }
        },
        StatementView::Return(None) => {
            lemma_append_control(Seq::empty(), seq![InstructionView::Return(None)]);
            assert(Seq::empty() + seq![InstructionView::Return(None)] =~= seq![
                InstructionView::Return(None),
            ]);
        },
        StatementView::Break => {
            if scope.loops.len() > 0 {
                let code = seq![InstructionView::Goto(scope.loops.last().break_label)];
                lemma_append_control(Seq::empty(), code);
                assert(Seq::empty() + code =~= code);
            }
        },
        StatementView::Continue => {
            if scope.loops.len() > 0 {
                let code = seq![InstructionView::Goto(scope.loops.last().continue_label)];
                lemma_append_control(Seq::empty(), code);
                assert(Seq::empty() + code =~= code);
            }
        },
        StatementView::If { .. } => {
            lemma_if_writes_before_read(s, scope);
        },
        StatementView::While { .. } => {
            lemma_while_writes_before_read(s, scope);
        },
        StatementView::For { .. } => {
            lemma_for_writes_before_read(s, scope);
        },
    }
}

/// The instructions of a lowered `if` statement write their temporaries
/// before they read them.
pub proof fn lemma_if_writes_before_read(s: StatementView, scope: Scope)
    requires
        s is If,
    ensures
        lower_if(s, scope) matches Ok(l) ==> temps_written_before_read(l.code),
    decreases s, 0nat,
{
    reveal(lower_if);
    reveal(lower_statement);
    if let StatementView::If { cond, then_branch, else_branch } = s {
        if let Ok(l) = lower_if(s, scope) {
            let c = lower_expression(cond, scope.temps)->Ok_0;
            let inner = Scope { temps: c.temps, labels: scope.labels + 3, loops: scope.loops };
            let t = lower_statement(*then_branch, inner)->Ok_0;
            lemma_expression_writes_before_read(cond, scope.temps);
            lemma_statement_writes_before_read(*then_branch, inner);
            let e_code = match else_branch {
                Some(other) => {
                    lemma_statement_writes_before_read(*other, following(scope, t));
                    lower_statement(*other, following(scope, t))->Ok_0.code
                },
                None => Seq::empty(),
            };
            let then_label = label_name(scope.labels);
            let else_label = label_name(scope.labels + 1);
            let end_label = label_name(scope.labels + 2);
            let branch = seq![
                InstructionView::IfGoto { cond: c.value, label: then_label },
                InstructionView::Goto(else_label),
                InstructionView::Label(then_label),
            ];
            let join = seq![InstructionView::Goto(end_label), InstructionView::Label(else_label)];
            let end = seq![InstructionView::Label(end_label)];
            assert(l.code == c.code + branch + t.code + join + e_code + end);
            lemma_append_branch(c.code, c.value, then_label, branch[1], branch[2]);
            lemma_concat(c.code + branch, t.code);
            lemma_append_control(c.code + branch + t.code, join);
            lemma_concat(c.code + branch + t.code + join, e_code);
            lemma_append_control(c.code + branch + t.code + join + e_code, end);
        }
    }
}

/// The instructions of a lowered `while` statement write their
/// temporaries before they read them.
pub proof fn lemma_while_writes_before_read(s: StatementView, scope: Scope)
    requires
        s is While,
    ensures
        lower_while(s, scope) matches Ok(l) ==> temps_written_before_read(l.code),
    decreases s, 0nat,
{
    reveal(lower_while);
    reveal(lower_statement);
    if let StatementView::While { cond, body } = s {
        if let Ok(l) = lower_while(s, scope) {
            let c = lower_expression(cond, scope.temps)->Ok_0;
            let inside = scope.loops.push(
                LoopContextView {
                    break_label: label_name(scope.labels + 2),
                    continue_label: label_name(scope.labels),
                },
            );
            let inner = Scope { temps: c.temps, labels: scope.labels + 3, loops: inside };
            let b = lower_statement(*body, inner)->Ok_0;
            lemma_expression_writes_before_read(cond, scope.temps);
            lemma_statement_writes_before_read(*body, inner);
            let cond_label = label_name(scope.labels);
            let loop_label = label_name(scope.labels + 1);
            let end_label = label_name(scope.labels + 2);
            let head = seq![InstructionView::Goto(cond_label), InstructionView::Label(cond_label)];
            let branch = seq![
                InstructionView::IfGoto { cond: c.value, label: loop_label },
                InstructionView::Goto(end_label),
                InstructionView::Label(loop_label),
            ];
            let tail = seq![InstructionView::Goto(cond_label), InstructionView::Label(end_label)];
            assert(l.code == head + c.code + branch + b.code + tail);
            lemma_append_control(Seq::empty(), head);
            assert(Seq::empty() + head =~= head);
            lemma_concat(head, c.code);
            lemma_value_written_behind(head, c.code, c.value);
            lemma_append_branch(head + c.code, c.value, loop_label, branch[1], branch[2]);
            lemma_concat(head + c.code + branch, b.code);
            lemma_append_control(head + c.code + branch + b.code, tail);
        }
    }
}

/// The instructions of a lowered `for` statement write their temporaries
/// before they read them.
pub proof fn lemma_for_writes_before_read(s: StatementView, scope: Scope)
    requires
        s is For,
    ensures
        lower_for(s, scope) matches Ok(l) ==> temps_written_before_read(l.code),
    decreases s, 0nat,
{
    reveal(lower_for);
    reveal(lower_statement);
    if let StatementView::For { init, cond, inc, body } = s {
        if let Ok(l) = lower_for(s, scope) {
            let inside = scope.loops.push(
                LoopContextView {
                    break_label: label_name(scope.labels + 3),
                    continue_label: label_name(scope.labels + 2),
                },
            );
            let first = Scope { temps: scope.temps, labels: scope.labels + 4, loops: inside };
            let i = lower_inner_declaration(init, first)->Ok_0;
            let c = lower_expression(cond, i.temps)->Ok_0;
            let inner = Scope { temps: c.temps, labels: i.labels, loops: inside };
            let b = lower_statement(*body, inner)->Ok_0;
            let n = lower_expression(inc, b.temps)->Ok_0;
            lemma_inner_declaration_writes_before_read(init, first);
            lemma_expression_writes_before_read(cond, i.temps);
            lemma_statement_writes_before_read(*body, inner);
            lemma_expression_writes_before_read(inc, b.temps);
            let cond_label = label_name(scope.labels);
            let loop_label = label_name(scope.labels + 1);
            let inc_label = label_name(scope.labels + 2);
            let end_label = label_name(scope.labels + 3);
            let head = seq![InstructionView::Goto(cond_label), InstructionView::Label(cond_label)];
            let branch = seq![
                InstructionView::IfGoto { cond: c.value, label: loop_label },
                InstructionView::Goto(end_label),
                InstructionView::Label(loop_label),
            ];
            let step = seq![InstructionView::Label(inc_label)];
            let tail = seq![InstructionView::Goto(cond_label), InstructionView::Label(end_label)];
            assert(l.code == i.code + head + c.code + branch + b.code + step + n.code + tail);
            lemma_append_control(i.code, head);
            lemma_concat(i.code + head, c.code);
            lemma_value_written_behind(i.code + head, c.code, c.value);
            lemma_append_branch(i.code + head + c.code, c.value, loop_label, branch[1], branch[2]);
            lemma_concat(i.code + head + c.code + branch, b.code);
            lemma_append_control(i.code + head + c.code + branch + b.code, step);
            lemma_concat(i.code + head + c.code + branch + b.code + step, n.code);
            lemma_append_control(i.code + head + c.code + branch + b.code + step + n.code, tail);
        }
    }
}

/// The instructions of the lowered items of a block write their
/// temporaries before they read them.
pub proof fn lemma_items_write_before_read(items: Seq<BlockItemView>, scope: Scope)
    ensures
        lower_items(items, scope) matches Ok(l) ==> temps_written_before_read(l.code),
    decreases items, 0nat,
{
    reveal(lower_items);
    reveal(lower_statement);
    if items.len() > 0 {
        lemma_items_write_before_read(items.drop_last(), scope);
        if let Ok(front) = lower_items(items.drop_last(), scope) {
            match items.last() {
                BlockItemView::Decl(d) => {
                    lemma_inner_declaration_writes_before_read(d, following(scope, front));
                    if let Ok(last) = lower_inner_declaration(d, following(scope, front)) {
                        lemma_concat(front.code, last.code);
                    }
                },
                BlockItemView::Stmt(s) => {
                    lemma_statement_writes_before_read(s, following(scope, front));
                    if let Ok(last) = lower_statement(s, following(scope, front)) {
                        lemma_concat(front.code, last.code);
                    }
                },
            }
        }
    }
}

/// Lowering a declaration keeps the functions that were lowered before,
/// and a function that it adds writes its temporaries before it reads
/// them.
pub proof fn lemma_declaration_writes_before_read(d: DeclarationView, state: LowererView)
    requires
        all_write_before_read(state.functions),
    ensures
        lower_declaration(d, state) matches Ok(after) ==> all_write_before_read(after.functions),
{
    if let Ok(after) = lower_declaration(d, state) {
        if let DeclarationView::Function { name, ret_type, params, body } = d {
            let scope = Scope { temps: 0, labels: state.label_count, loops: Seq::empty() };
            lemma_statement_writes_before_read(*body, scope);
            assert forall|i: int| 0 <= i < after.functions.len() implies temps_written_before_read(
                #[trigger] after.functions[i].body,
            ) by {
                if i < state.functions.len() {
                    assert(after.functions[i] == state.functions[i]);
                }
            }
        }
    }
}

/// In every function of a lowered program, each temporary that an
/// instruction reads is written by an instruction that stands before it
/// in that function.
pub proof fn lemma_program_writes_before_read(items: Seq<DeclarationView>, state: LowererView)
    requires
        all_write_before_read(state.functions),
    ensures
        lower_declarations(items, state) matches Ok(after) ==> all_write_before_read(
            after.functions,
        ),
    decreases items.len(),
{
    if items.len() > 0 {
        lemma_program_writes_before_read(items.drop_last(), state);
        if let Ok(front) = lower_declarations(items.drop_last(), state) {
            lemma_declaration_writes_before_read(items.last(), front);
        }
    }
}

/// Whether no temporary is written by two instructions of `code`.
pub open spec fn temps_written_once(code: Seq<InstructionView>) -> bool {
    forall|i: int, j: int, t: nat|
        0 <= i < j < code.len() && #[trigger] writes_temp(code[i], t) ==> !#[trigger] writes_temp(
            code[j],
            t,
        )
}

/// Whether every temporary that `code` writes has a number from `lo` up
/// to, not including, `hi`.
pub open spec fn temps_written_within(code: Seq<InstructionView>, lo: nat, hi: nat) -> bool {
    forall|i: int, t: nat|
        0 <= i < code.len() && #[trigger] writes_temp(code[i], t) ==> lo <= t < hi
}

/// Whether `code` writes only temporaries numbered from `lo` up to `hi`,
/// and none of them twice.
pub open spec fn takes_temps(code: Seq<InstructionView>, lo: nat, hi: nat) -> bool {
    lo <= hi && temps_written_within(code, lo, hi) && temps_written_once(code)
}

/// Whether no function of `functions` writes a temporary twice.
pub open spec fn all_write_once(functions: Seq<FunView>) -> bool {
    forall|i: int| 0 <= i < functions.len() ==> temps_written_once(#[trigger] functions[i].body)
}

/// Code that takes the temporaries after those of the code before it may
/// follow it.
pub proof fn lemma_takes_concat(
    a: Seq<InstructionView>,
    b: Seq<InstructionView>,
    lo: nat,
    mid: nat,
    hi: nat,
)
    requires
        takes_temps(a, lo, mid),
        takes_temps(b, mid, hi),
    ensures
        takes_temps(a + b, lo, hi),
{
    let ab = a + b;
    assert forall|i: int, t: nat| 0 <= i < ab.len() && #[trigger] writes_temp(ab[i], t) implies lo
        <= t < hi by {
        if i < a.len() {
            assert(ab[i] == a[i]);
        } else {
            assert(ab[i] == b[i - a.len()]);
        }
    }
    assert forall|i: int, j: int, t: nat|
        0 <= i < j < ab.len() && #[trigger] writes_temp(ab[i], t) implies !#[trigger] writes_temp(
        ab[j],
        t,
    ) by {
        if j < a.len() {
            assert(ab[i] == a[i] && ab[j] == a[j]);
        } else if i >= a.len() {
            assert(ab[i] == b[i - a.len()] && ab[j] == b[j - a.len()]);
        } else {
            assert(ab[i] == a[i] && ab[j] == b[j - a.len()]);
            if writes_temp(ab[j], t) {
                assert(t < mid && mid <= t);
            }
        }
    }
}

/// Instructions that write no temporary may follow any code.
pub proof fn lemma_takes_none(a: Seq<InstructionView>, b: Seq<InstructionView>, lo: nat, hi: nat)
    requires
        takes_temps(a, lo, hi),
        forall|i: int, t: nat| 0 <= i < b.len() ==> !#[trigger] writes_temp(b[i], t),
    ensures
        takes_temps(a + b, lo, hi),
{
    assert(takes_temps(b, hi, hi));
    lemma_takes_concat(a, b, lo, hi, hi);
}

/// An instruction that writes the next temporary may follow code that
/// took those before it.
pub proof fn lemma_takes_next(a: Seq<InstructionView>, instr: InstructionView, lo: nat, hi: nat)
    requires
        takes_temps(a, lo, hi),
        destination(instr) == Some(ValueView::Temp(hi)),
    ensures
        takes_temps(a.push(instr), lo, hi + 1),
{
    let b = seq![instr];
    assert(takes_temps(b, hi, hi + 1));
    lemma_takes_concat(a, b, lo, hi, hi + 1);
    assert(a.push(instr) =~= a + b);
}

/// An instruction that writes no temporary may follow any code.
pub proof fn lemma_takes_push(a: Seq<InstructionView>, instr: InstructionView, lo: nat, hi: nat)
    requires
        takes_temps(a, lo, hi),
        !(destination(instr) matches Some(ValueView::Temp(_))),
    ensures
        takes_temps(a.push(instr), lo, hi),
{
    lemma_takes_none(a, seq![instr], lo, hi);
    assert(a.push(instr) =~= a + seq![instr]);
}

/// A lowered expression writes the temporaries that it takes, each once.
pub proof fn lemma_expression_takes_temps(e: ExpressionView, temps: nat)
    ensures
        lower_expression(e, temps) matches Ok(l) ==> takes_temps(l.code, temps, l.temps),
    decreases e,
{
    reveal(lower_expression);
    reveal(lower_arguments);
    if let Ok(l) = lower_expression(e, temps) {
        match e {
            ExpressionView::IntLiteral(_) => {},
            ExpressionView::CharLiteral(_) => {},
            ExpressionView::Variable(_) => {},
            ExpressionView::Assign { target, value } => {
                lemma_expression_takes_temps(*value, temps);
                let v = lower_expression(*value, temps)->Ok_0;
                lemma_takes_push(v.code, l.code.last(), temps, v.temps);
            },
            ExpressionView::Unary { operator, oper } => {
                lemma_expression_takes_temps(*oper, temps);
                let o = lower_expression(*oper, temps)->Ok_0;
                lemma_takes_next(o.code, l.code.last(), temps, o.temps);
            },
            ExpressionView::Binary { operator, left_oper, right_oper } => {
                lemma_expression_takes_temps(*left_oper, temps);
                let left = lower_expression(*left_oper, temps)->Ok_0;
                lemma_expression_takes_temps(*right_oper, left.temps);
                let right = lower_expression(*right_oper, left.temps)->Ok_0;
                lemma_takes_concat(left.code, right.code, temps, left.temps, right.temps);
                lemma_takes_next(left.code + right.code, l.code.last(), temps, right.temps);
            },
            ExpressionView::Call { name, args } => {
                lemma_arguments_take_temps(args, temps);
                let a = lower_arguments(args, temps)->Ok_0;
                lemma_takes_next(a.code, l.code.last(), temps, a.temps);
            },
        }
    }
}

/// Lowered arguments write the temporaries that they take, each once.
pub proof fn lemma_arguments_take_temps(args: Seq<ExpressionView>, temps: nat)
    ensures
        lower_arguments(args, temps) matches Ok(a) ==> takes_temps(a.code, temps, a.temps),
    decreases args,
{
    reveal(lower_expression);
    reveal(lower_arguments);
    if args.len() > 0 {
        lemma_arguments_take_temps(args.drop_last(), temps);
        if let Ok(front) = lower_arguments(args.drop_last(), temps) {
            lemma_expression_takes_temps(args.last(), front.temps);
            if let Ok(last) = lower_expression(args.last(), front.temps) {
                lemma_takes_concat(front.code, last.code, temps, front.temps, last.temps);
            }
        }
    }
}

/// A lowered local declaration writes the temporaries that it takes, each
/// once.
pub proof fn lemma_inner_declaration_takes_temps(d: DeclarationView, scope: Scope)
    ensures
        lower_inner_declaration(d, scope) matches Ok(l) ==> takes_temps(
            l.code,
            scope.temps,
            l.temps,
        ),
{
    if let DeclarationView::InitVariable { name, var_type, init } = d {
        lemma_expression_takes_temps(init, scope.temps);
        if let Ok(l) = lower_inner_declaration(d, scope) {
            let v = lower_expression(init, scope.temps)->Ok_0;
            lemma_takes_push(v.code, l.code.last(), scope.temps, v.temps);
        }
    }
}

/// A lowered statement writes the temporaries that it takes, each once.
pub proof fn lemma_statement_takes_temps(s: StatementView, scope: Scope)
    ensures
        lower_statement(s, scope) matches Ok(l) ==> takes_temps(l.code, scope.temps, l.temps),
    decreases s, 1nat,
{
    reveal(lower_statement);
    reveal(lower_items);
    reveal(lower_if);
    reveal(lower_while);
    reveal(lower_for);
    let lo = scope.temps;
    if let Ok(l) = lower_statement(s, scope) {
        match s {
            StatementView::Block { items } => {
                lemma_items_take_temps(items, scope);
            },
            StatementView::Expr(e) => {
                lemma_expression_takes_temps(e, lo);
            },
            StatementView::Return(Some(e)) => {
                lemma_expression_takes_temps(e, lo);
                let v = lower_expression(e, lo)->Ok_0;
                lemma_takes_push(v.code, l.code.last(), lo, v.temps);
            },
            StatementView::Return(None) => {},
            StatementView::Break => {},
            StatementView::Continue => {},
            StatementView::If { cond, then_branch, else_branch } => {
                let c = lower_expression(cond, lo)->Ok_0;
                let inner = Scope { temps: c.temps, labels: scope.labels + 3, loops: scope.loops };
                let t = lower_statement(*then_branch, inner)->Ok_0;
                lemma_expression_takes_temps(cond, lo);
                lemma_statement_takes_temps(*then_branch, inner);
                let e_code = match else_branch {
                    Some(other) => {
                        lemma_statement_takes_temps(*other, following(scope, t));
                        lower_statement(*other, following(scope, t))->Ok_0.code
                    },
                    None => Seq::empty(),
                };
                let then_label = label_name(scope.labels);
                let else_label = label_name(scope.labels + 1);
                let end_label = label_name(scope.labels + 2);
                let branch = seq![
                    InstructionView::IfGoto { cond: c.value, label: then_label },
                    InstructionView::Goto(else_label),
                    InstructionView::Label(then_label),
                ];
                let join = seq![
                    InstructionView::Goto(end_label),
                    InstructionView::Label(else_label),
                ];
                let end = seq![InstructionView::Label(end_label)];
                assert(l.code == c.code + branch + t.code + join + e_code + end);
                lemma_takes_none(c.code, branch, lo, c.temps);
                lemma_takes_concat(c.code + branch, t.code, lo, c.temps, t.temps);
                lemma_takes_none(c.code + branch + t.code, join, lo, t.temps);
                lemma_takes_concat(
                    c.code + branch + t.code + join,
                    e_code,
                    lo,
                    t.temps,
                    l.temps,
                );
                lemma_takes_none(c.code + branch + t.code + join + e_code, end, lo, l.temps);
            },
            StatementView::While { cond, body } => {
                let c = lower_expression(cond, lo)->Ok_0;
                let cond_label = label_name(scope.labels);
                let loop_label = label_name(scope.labels + 1);
                let end_label = label_name(scope.labels + 2);
                let inside = scope.loops.push(
                    LoopContextView { break_label: end_label, continue_label: cond_label },
                );
                let inner = Scope { temps: c.temps, labels: scope.labels + 3, loops: inside };
                let b = lower_statement(*body, inner)->Ok_0;
                lemma_expression_takes_temps(cond, lo);
                lemma_statement_takes_temps(*body, inner);
                let head = seq![
                    InstructionView::Goto(cond_label),
                    InstructionView::Label(cond_label),
                ];
                let branch = seq![
                    InstructionView::IfGoto { cond: c.value, label: loop_label },
                    InstructionView::Goto(end_label),
                    InstructionView::Label(loop_label),
                ];
                let tail = seq![
                    InstructionView::Goto(cond_label),
                    InstructionView::Label(end_label),
                ];
                assert(l.code == head + c.code + branch + b.code + tail);
                assert(takes_temps(head, lo, lo));
                lemma_takes_concat(head, c.code, lo, lo, c.temps);
                lemma_takes_none(head + c.code, branch, lo, c.temps);
                lemma_takes_concat(head + c.code + branch, b.code, lo, c.temps, b.temps);
                lemma_takes_none(head + c.code + branch + b.code, tail, lo, b.temps);
            },
            StatementView::For { init, cond, inc, body } => {
                let cond_label = label_name(scope.labels);
                let loop_label = label_name(scope.labels + 1);
                let inc_label = label_name(scope.labels + 2);
                let end_label = label_name(scope.labels + 3);
                let inside = scope.loops.push(
                    LoopContextView { break_label: end_label, continue_label: inc_label },
                );
                let first = Scope { temps: lo, labels: scope.labels + 4, loops: inside };
                let i = lower_inner_declaration(init, first)->Ok_0;
                let c = lower_expression(cond, i.temps)->Ok_0;
                let inner = Scope { temps: c.temps, labels: i.labels, loops: inside };
                let b = lower_statement(*body, inner)->Ok_0;
                let n = lower_expression(inc, b.temps)->Ok_0;
                lemma_inner_declaration_takes_temps(init, first);
                lemma_expression_takes_temps(cond, i.temps);
                lemma_statement_takes_temps(*body, inner);
                lemma_expression_takes_temps(inc, b.temps);
                let head = seq![
                    InstructionView::Goto(cond_label),
                    InstructionView::Label(cond_label),
                ];
                let branch = seq![
                    InstructionView::IfGoto { cond: c.value, label: loop_label },
                    InstructionView::Goto(end_label),
                    InstructionView::Label(loop_label),
                ];
                let step = seq![InstructionView::Label(inc_label)];
                let tail = seq![
                    InstructionView::Goto(cond_label),
                    InstructionView::Label(end_label),
                ];
                assert(l.code == i.code + head + c.code + branch + b.code + step + n.code + tail);
                lemma_takes_none(i.code, head, lo, i.temps);
                lemma_takes_concat(i.code + head, c.code, lo, i.temps, c.temps);
                lemma_takes_none(i.code + head + c.code, branch, lo, c.temps);
                lemma_takes_concat(i.code + head + c.code + branch, b.code, lo, c.temps, b.temps);
                lemma_takes_none(i.code + head + c.code + branch + b.code, step, lo, b.temps);
                lemma_takes_concat(
                    i.code + head + c.code + branch + b.code + step,
                    n.code,
                    lo,
                    b.temps,
                    n.temps,
                );
                lemma_takes_none(
                    i.code + head + c.code + branch + b.code + step + n.code,
                    tail,
                    lo,
                    n.temps,
                );
            },
        }
    }
}

/// The lowered items of a block write the temporaries that they take,
/// each once.
pub proof fn lemma_items_take_temps(items: Seq<BlockItemView>, scope: Scope)
    ensures
        lower_items(items, scope) matches Ok(l) ==> takes_temps(l.code, scope.temps, l.temps),
    decreases items, 0nat,
{
    reveal(lower_items);
    reveal(lower_statement);
    if items.len() > 0 {
        lemma_items_take_temps(items.drop_last(), scope);
        if let Ok(front) = lower_items(items.drop_last(), scope) {
            match items.last() {
                BlockItemView::Decl(d) => {
                    lemma_inner_declaration_takes_temps(d, following(scope, front));
                    if let Ok(last) = lower_inner_declaration(d, following(scope, front)) {
                        lemma_takes_concat(
                            front.code,
                            last.code,
                            scope.temps,
                            front.temps,
                            last.temps,
                        );
                    }
                },
                BlockItemView::Stmt(s) => {
                    lemma_statement_takes_temps(s, following(scope, front));
                    if let Ok(last) = lower_statement(s, following(scope, front)) {
                        lemma_takes_concat(
                            front.code,
                            last.code,
                            scope.temps,
                            front.temps,
                            last.temps,
                        );
                    }
                },
            }
        }
    }
}

/// Lowering a declaration keeps the functions that were lowered before,
/// and a function that it adds writes no temporary twice.
pub proof fn lemma_declaration_writes_once(d: DeclarationView, state: LowererView)
    requires
        all_write_once(state.functions),
    ensures
        lower_declaration(d, state) matches Ok(after) ==> all_write_once(after.functions),
{
    if let Ok(after) = lower_declaration(d, state) {
        if let DeclarationView::Function { name, ret_type, params, body } = d {
            let scope = Scope { temps: 0, labels: state.label_count, loops: Seq::empty() };
            lemma_statement_takes_temps(*body, scope);
            assert forall|i: int| 0 <= i < after.functions.len() implies temps_written_once(
                #[trigger] after.functions[i].body,
            ) by {
                if i < state.functions.len() {
                    assert(after.functions[i] == state.functions[i]);
                }
            }
        }
    }
}

/// In every function of a lowered program, no temporary is written by two
/// instructions.
pub proof fn lemma_program_writes_once(items: Seq<DeclarationView>, state: LowererView)
    requires
        all_write_once(state.functions),
    ensures
        lower_declarations(items, state) matches Ok(after) ==> all_write_once(after.functions),
    decreases items.len(),
{
    if items.len() > 0 {
        lemma_program_writes_once(items.drop_last(), state);
        if let Ok(front) = lower_declarations(items.drop_last(), state) {
            lemma_declaration_writes_once(items.last(), front);
        }
    }
}

} // verus!
