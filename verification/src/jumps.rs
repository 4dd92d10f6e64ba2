//! Where `break` and `continue` jump.
//!
//! Inside nested loops they jump to the labels of the innermost loop, and
//! those are labels of no loop around it: in every scope that lowering
//! reaches from the body of a function, the loops have their labels
//! numbered below the labels that are still free.

use vstd::prelude::*;
use crate::ast::{BlockItemView, DeclarationView, ExpressionView, StatementView};
use crate::ir::InstructionView;
use crate::labels::{
    lemma_inner_declaration_is_straight, lemma_items_are_well_labelled,
    lemma_statement_is_well_labelled,
};
use crate::lowering::{
    decimal_digits, digit_char, following, label_name, lower_expression, lower_for,
    lower_inner_declaration, lower_items, lower_statement, lower_while, stop, LoopContextView,
    LowerError, Lowered, Scope, Stopped,
};

verus! {

/// The digits are ten different characters.
pub proof fn lemma_digit_char_injective(a: nat, b: nat)
    requires
        a < 10,
        b < 10,
        digit_char(a) == digit_char(b),
    ensures
        a == b,
{
}

/// Different numbers are written differently.
pub proof fn lemma_decimal_digits_injective(a: nat, b: nat)
    requires
        decimal_digits(a) == decimal_digits(b),
    ensures
        a == b,
    decreases a,
{
    let da = decimal_digits(a);
    let db = decimal_digits(b);
    lemma_decimal_digits_nonempty(a / 10);
    lemma_decimal_digits_nonempty(b / 10);
    if a < 10 && b < 10 {
        assert(da[0] == digit_char(a));
        assert(db[0] == digit_char(b));
        lemma_digit_char_injective(a, b);
    } else if a >= 10 && b >= 10 {
        let front_a = decimal_digits(a / 10);
        let front_b = decimal_digits(b / 10);
        assert(da.last() == digit_char(a % 10));
        assert(db.last() == digit_char(b % 10));
        assert(da.drop_last() =~= front_a);
        assert(db.drop_last() =~= front_b);
        lemma_digit_char_injective(a % 10, b % 10);
        lemma_decimal_digits_injective(a / 10, b / 10);
    } else if a < 10 {
        assert(da.len() == 1);
        assert(db.len() == decimal_digits(b / 10).len() + 1);
    } else {
        assert(db.len() == 1);
        assert(da.len() == decimal_digits(a / 10).len() + 1);
    }
}

/// A number is written with at least one digit.
pub proof fn lemma_decimal_digits_nonempty(n: nat)
    ensures
        decimal_digits(n).len() >= 1,
    decreases n,
{
    if n >= 10 {
        lemma_decimal_digits_nonempty(n / 10);
    }
}

/// Labels with different numbers have different names.
pub proof fn lemma_label_name_injective(a: nat, b: nat)
    requires
        label_name(a) == label_name(b),
    ensures
        a == b,
{
    assert(label_name(a).subrange(1, label_name(a).len() as int) =~= decimal_digits(a));
    assert(label_name(b).subrange(1, label_name(b).len() as int) =~= decimal_digits(b));
    lemma_decimal_digits_injective(a, b);
}

/// Whether `name` is the name of a label with a number below `labels`.
pub open spec fn numbered_below(name: Seq<char>, labels: nat) -> bool {
    exists|k: nat| k < labels && name == #[trigger] label_name(k)
}

/// Whether the labels of the loops of `scope` were all taken before the
/// labels that are still free in it.
pub open spec fn loops_are_numbered(scope: Scope) -> bool {
    forall|i: int|
        0 <= i < scope.loops.len() ==> numbered_below(
            (#[trigger] scope.loops[i]).break_label,
            scope.labels,
        ) && numbered_below(scope.loops[i].continue_label, scope.labels)
}

/// The loop context that a `while` statement lowered in `scope` puts
/// around its body.
pub open spec fn while_context(scope: Scope) -> LoopContextView {
    LoopContextView {
        break_label: label_name(scope.labels + 2),
        continue_label: label_name(scope.labels),
    }
}

/// The loop context that a `for` statement lowered in `scope` puts around
/// its body.
pub open spec fn for_context(scope: Scope) -> LoopContextView {
    LoopContextView {
        break_label: label_name(scope.labels + 3),
        continue_label: label_name(scope.labels + 2),
    }
}

/// Inside loops, `break` is one jump to the break label of the innermost
/// loop and `continue` one jump to its continue label; outside any loop
/// neither can be lowered.
pub proof fn lemma_break_and_continue_target_innermost_loop(scope: Scope)
    ensures
        scope.loops.len() > 0 ==> lower_statement(StatementView::Break, scope) == Ok::<
            Lowered,
            Stopped,
        >(
            Lowered {
                code: seq![InstructionView::Goto(scope.loops.last().break_label)],
                temps: scope.temps,
                labels: scope.labels,
            },
        ),
        scope.loops.len() > 0 ==> lower_statement(StatementView::Continue, scope) == Ok::<
            Lowered,
            Stopped,
        >(
            Lowered {
                code: seq![InstructionView::Goto(scope.loops.last().continue_label)],
                temps: scope.temps,
                labels: scope.labels,
            },
        ),
        scope.loops.len() == 0 ==> lower_statement(StatementView::Break, scope) == Err::<
            Lowered,
            Stopped,
        >(stop(LowerError::BreakOutsideLoop, scope)),
        scope.loops.len() == 0 ==> lower_statement(StatementView::Continue, scope) == Err::<
            Lowered,
            Stopped,
        >(stop(LowerError::ContinueOutsideLoop, scope)),
{
    reveal(lower_statement);
}

/// The instructions of a `while` loop whose body is `jump`, which is
/// `break` or `continue`: the one instruction of the body jumps to the
/// label that ends the loop, or to the label at which its condition is
/// computed, whatever loops are around.
pub proof fn lemma_jump_in_while(cond: ExpressionView, jump: StatementView, scope: Scope)
    requires
        jump is Break || jump is Continue,
    ensures
        lower_while(StatementView::While { cond, body: Box::new(jump) }, scope) matches Ok(l)
            ==> {
            let own = while_context(scope);
            let c = lower_expression(cond, scope.temps)->Ok_0;
            l.code == seq![
                InstructionView::Goto(own.continue_label),
                InstructionView::Label(own.continue_label),
            ] + c.code + seq![
                InstructionView::IfGoto { cond: c.value, label: label_name(scope.labels + 1) },
                InstructionView::Goto(own.break_label),
                InstructionView::Label(label_name(scope.labels + 1)),
                InstructionView::Goto(
                    if jump is Break {
                        own.break_label
                    } else {
                        own.continue_label
                    },
                ),
                InstructionView::Goto(own.continue_label),
                InstructionView::Label(own.break_label),
            ]
        },
{
    reveal(lower_while);
    reveal(lower_statement);
    let s = StatementView::While { cond, body: Box::new(jump) };
    if let Ok(l) = lower_while(s, scope) {
        let own = while_context(scope);
        let c = lower_expression(cond, scope.temps)->Ok_0;
        let inside = scope.loops.push(own);
        assert(inside.last() == own);
        let inner = Scope { temps: c.temps, labels: scope.labels + 3, loops: inside };
        let b = lower_statement(jump, inner)->Ok_0;
        assert(l.code =~= seq![
            InstructionView::Goto(own.continue_label),
            InstructionView::Label(own.continue_label),
        ] + c.code + seq![
            InstructionView::IfGoto { cond: c.value, label: label_name(scope.labels + 1) },
            InstructionView::Goto(own.break_label),
            InstructionView::Label(label_name(scope.labels + 1)),
            b.code[0],
            InstructionView::Goto(own.continue_label),
            InstructionView::Label(own.break_label),
        ]);
    }
}

/// The instructions of a `for` loop whose body is `jump`, which is `break`
/// or `continue`: the one instruction of the body jumps to the label that
/// ends the loop, or to the label before its increment, whatever loops
/// are around.
pub proof fn lemma_jump_in_for(
    init: DeclarationView,
    cond: ExpressionView,
    inc: ExpressionView,
    jump: StatementView,
    scope: Scope,
)
    requires
        jump is Break || jump is Continue,
    ensures
        lower_for(StatementView::For { init, cond, inc, body: Box::new(jump) }, scope) matches Ok(
            l,
        ) ==> {
            let own = for_context(scope);
            let i = lower_inner_declaration(
                init,
                Scope {
                    temps: scope.temps,
                    labels: scope.labels + 4,
                    loops: scope.loops.push(own),
                },
            )->Ok_0;
            let c = lower_expression(cond, i.temps)->Ok_0;
            let n = lower_expression(inc, c.temps)->Ok_0;
            l.code == i.code + seq![
                InstructionView::Goto(label_name(scope.labels)),
                InstructionView::Label(label_name(scope.labels)),
            ] + c.code + seq![
                InstructionView::IfGoto { cond: c.value, label: label_name(scope.labels + 1) },
                InstructionView::Goto(own.break_label),
                InstructionView::Label(label_name(scope.labels + 1)),
                InstructionView::Goto(
                    if jump is Break {
                        own.break_label
                    } else {
                        own.continue_label
                    },
                ),
                InstructionView::Label(own.continue_label),
            ] + n.code + seq![
                InstructionView::Goto(label_name(scope.labels)),
                InstructionView::Label(own.break_label),
            ]
        },
{
    reveal(lower_for);
    reveal(lower_statement);
    let s = StatementView::For { init, cond, inc, body: Box::new(jump) };
    if let Ok(l) = lower_for(s, scope) {
        let own = for_context(scope);
        let inside = scope.loops.push(own);
        assert(inside.last() == own);
        let i = lower_inner_declaration(
            init,
            Scope { temps: scope.temps, labels: scope.labels + 4, loops: inside },
        )->Ok_0;
        let c = lower_expression(cond, i.temps)->Ok_0;
        let inner = Scope { temps: c.temps, labels: i.labels, loops: inside };
        let b = lower_statement(jump, inner)->Ok_0;
        let n = lower_expression(inc, b.temps)->Ok_0;
        assert(l.code =~= i.code + seq![
            InstructionView::Goto(label_name(scope.labels)),
            InstructionView::Label(label_name(scope.labels)),
        ] + c.code + seq![
            InstructionView::IfGoto { cond: c.value, label: label_name(scope.labels + 1) },
            InstructionView::Goto(own.break_label),
            InstructionView::Label(label_name(scope.labels + 1)),
            b.code[0],
            InstructionView::Label(own.continue_label),
        ] + n.code + seq![
            InstructionView::Goto(label_name(scope.labels)),
            InstructionView::Label(own.break_label),
        ]);
    }
}

/// Where the loops around a statement have their labels numbered below
/// the free ones, so have the loops around what is lowered later or
/// deeper: with more labels taken, or inside a loop that took its labels
/// from the free ones.
pub proof fn lemma_loops_stay_numbered(scope: Scope, later: Scope)
    requires
        loops_are_numbered(scope),
        later.labels >= scope.labels,
        later.loops == scope.loops || (later.labels >= scope.labels + 3 && later.loops
            == scope.loops.push(while_context(scope))) || (later.labels >= scope.labels + 4
            && later.loops == scope.loops.push(for_context(scope))),
    ensures
        loops_are_numbered(later),
{
    assert forall|i: int| 0 <= i < later.loops.len() implies numbered_below(
        (#[trigger] later.loops[i]).break_label,
        later.labels,
    ) && numbered_below(later.loops[i].continue_label, later.labels) by {
        if i < scope.loops.len() {
            assert(later.loops[i] == scope.loops[i]);
            let b = choose|k: nat|
                k < scope.labels && scope.loops[i].break_label == #[trigger] label_name(k);
            let c = choose|k: nat|
                k < scope.labels && scope.loops[i].continue_label == #[trigger] label_name(k);
            assert(b < later.labels && later.loops[i].break_label == label_name(b));
            assert(c < later.labels && later.loops[i].continue_label == label_name(c));
        } else if later.loops == scope.loops.push(while_context(scope)) && later.labels
            >= scope.labels + 3 {
            let b = (scope.labels + 2) as nat;
            let c = scope.labels;
            assert(b < later.labels && later.loops[i].break_label == label_name(b));
            assert(c < later.labels && later.loops[i].continue_label == label_name(c));
        } else {
            let b = (scope.labels + 3) as nat;
            let c = (scope.labels + 2) as nat;
            assert(b < later.labels && later.loops[i].break_label == label_name(b));
            assert(c < later.labels && later.loops[i].continue_label == label_name(c));
        }
    }
}

/// The labels of a loop are those of no loop around it, where the loops
/// around it are numbered; in the body of a function they always are
/// ([`lemma_function_scopes_are_numbered`]).
pub proof fn lemma_own_labels_are_new(scope: Scope, i: int)
    requires
        loops_are_numbered(scope),
        0 <= i < scope.loops.len(),
    ensures
        while_context(scope).break_label != scope.loops[i].break_label,
        while_context(scope).break_label != scope.loops[i].continue_label,
        while_context(scope).continue_label != scope.loops[i].break_label,
        while_context(scope).continue_label != scope.loops[i].continue_label,
        for_context(scope).break_label != scope.loops[i].break_label,
        for_context(scope).break_label != scope.loops[i].continue_label,
        for_context(scope).continue_label != scope.loops[i].break_label,
        for_context(scope).continue_label != scope.loops[i].continue_label,
{
    let b = choose|k: nat|
        k < scope.labels && scope.loops[i].break_label == #[trigger] label_name(k);
    let c = choose|k: nat|
        k < scope.labels && scope.loops[i].continue_label == #[trigger] label_name(k);
    if while_context(scope).break_label == scope.loops[i].break_label {
        lemma_label_name_injective(scope.labels + 2, b);
    }
    if while_context(scope).break_label == scope.loops[i].continue_label {
        lemma_label_name_injective(scope.labels + 2, c);
    }
    if while_context(scope).continue_label == scope.loops[i].break_label {
        lemma_label_name_injective(scope.labels, b);
    }
    if while_context(scope).continue_label == scope.loops[i].continue_label {
        lemma_label_name_injective(scope.labels, c);
    }
    if for_context(scope).break_label == scope.loops[i].break_label {
        lemma_label_name_injective(scope.labels + 3, b);
    }
    if for_context(scope).break_label == scope.loops[i].continue_label {
        lemma_label_name_injective(scope.labels + 3, c);
    }
    if for_context(scope).continue_label == scope.loops[i].break_label {
        lemma_label_name_injective(scope.labels + 2, b);
    }
    if for_context(scope).continue_label == scope.loops[i].continue_label {
        lemma_label_name_injective(scope.labels + 2, c);
    }
}

/// Whether the loops are numbered in `scope`, in which `s` is lowered,
/// and in every scope in which a statement inside `s` is then lowered.
pub open spec fn scopes_are_numbered(s: StatementView, scope: Scope) -> bool
    decreases s, 1nat,
{
    &&& loops_are_numbered(scope)
    &&& match s {
        StatementView::Block { items } => items_scopes_are_numbered(items, scope),
        StatementView::If { cond, then_branch, else_branch } => match lower_expression(
            cond,
            scope.temps,
        ) {
            Ok(c) => {
                let inner = Scope { temps: c.temps, labels: scope.labels + 3, loops: scope.loops };
                &&& scopes_are_numbered(*then_branch, inner)
                &&& match lower_statement(*then_branch, inner) {
                    Ok(t) => match else_branch {
                        Some(other) => scopes_are_numbered(*other, following(scope, t)),
                        None => true,
                    },
                    Err(_) => true,
                }
            },
            Err(_) => true,
        },
        StatementView::While { cond, body } => match lower_expression(cond, scope.temps) {
            Ok(c) => scopes_are_numbered(
                *body,
                Scope {
                    temps: c.temps,
                    labels: scope.labels + 3,
                    loops: scope.loops.push(while_context(scope)),
                },
            ),
            Err(_) => true,
        },
        StatementView::For { init, cond, inc, body } => match lower_inner_declaration(
            init,
            Scope {
                temps: scope.temps,
                labels: scope.labels + 4,
                loops: scope.loops.push(for_context(scope)),
            },
        ) {
            Ok(i) => match lower_expression(cond, i.temps) {
                Ok(c) => scopes_are_numbered(
                    *body,
                    Scope {
                        temps: c.temps,
                        labels: i.labels,
                        loops: scope.loops.push(for_context(scope)),
                    },
                ),
                Err(_) => true,
            },
            Err(_) => true,
        },
        _ => true,
    }
}

/// Whether the loops are numbered in every scope in which a statement
/// among or inside `items` is lowered, where the items are lowered in
/// `scope`.
pub open spec fn items_scopes_are_numbered(items: Seq<BlockItemView>, scope: Scope) -> bool
    decreases items, 0nat,
{
    items.len() > 0 ==> {
        &&& items_scopes_are_numbered(items.drop_last(), scope)
        &&& match lower_items(items.drop_last(), scope) {
            Ok(front) => match items.last() {
                BlockItemView::Stmt(s) => scopes_are_numbered(s, following(scope, front)),
                BlockItemView::Decl(_) => true,
            },
            Err(_) => true,
        }
    }
}

/// Where the loops around a statement are numbered, so are the loops
/// around every statement inside it, in the scope in which that is
/// lowered.
pub proof fn lemma_scopes_are_numbered(s: StatementView, scope: Scope)
    requires
        loops_are_numbered(scope),
    ensures
        scopes_are_numbered(s, scope),
    decreases s, 1nat,
{
    match s {
        StatementView::Block { items } => {
            lemma_items_scopes_are_numbered(items, scope);
        },
        StatementView::If { cond, then_branch, else_branch } => {
            if let Ok(c) = lower_expression(cond, scope.temps) {
                let inner = Scope { temps: c.temps, labels: scope.labels + 3, loops: scope.loops };
                lemma_loops_stay_numbered(scope, inner);
                lemma_scopes_are_numbered(*then_branch, inner);
                if let Ok(t) = lower_statement(*then_branch, inner) {
                    if let Some(other) = else_branch {
                        lemma_statement_is_well_labelled(*then_branch, inner);
                        lemma_loops_stay_numbered(scope, following(scope, t));
                        lemma_scopes_are_numbered(*other, following(scope, t));
                    }
                }
            }
        },
        StatementView::While { cond, body } => {
            if let Ok(c) = lower_expression(cond, scope.temps) {
                let inner = Scope {
                    temps: c.temps,
                    labels: scope.labels + 3,
                    loops: scope.loops.push(while_context(scope)),
                };
                lemma_loops_stay_numbered(scope, inner);
                lemma_scopes_are_numbered(*body, inner);
            }
        },
        StatementView::For { init, cond, inc, body } => {
            let first = Scope {
                temps: scope.temps,
                labels: scope.labels + 4,
                loops: scope.loops.push(for_context(scope)),
            };
            if let Ok(i) = lower_inner_declaration(init, first) {
                if let Ok(c) = lower_expression(cond, i.temps) {
                    let inner = Scope { temps: c.temps, labels: i.labels, loops: first.loops };
                    lemma_inner_declaration_is_straight(init, first);
                    lemma_loops_stay_numbered(scope, inner);
                    lemma_scopes_are_numbered(*body, inner);
                }
            }
        },
        _ => {},
    }
}

/// Where the loops around a block are numbered, so are the loops around
/// every statement among or inside its items.
pub proof fn lemma_items_scopes_are_numbered(items: Seq<BlockItemView>, scope: Scope)
    requires
        loops_are_numbered(scope),
    ensures
        items_scopes_are_numbered(items, scope),
    decreases items, 0nat,
{
    if items.len() > 0 {
        lemma_items_scopes_are_numbered(items.drop_last(), scope);
        if let Ok(front) = lower_items(items.drop_last(), scope) {
            if let BlockItemView::Stmt(s) = items.last() {
                lemma_items_are_well_labelled(items.drop_last(), scope);
                lemma_loops_stay_numbered(scope, following(scope, front));
                lemma_scopes_are_numbered(s, following(scope, front));
            }
        }
    }
}

/// In the body of a function, which is lowered outside any loop, the
/// loops around every statement are numbered: wherever a loop is lowered,
/// its labels are those of no loop around it
/// ([`lemma_own_labels_are_new`]).
pub proof fn lemma_function_scopes_are_numbered(body: StatementView, temps: nat, labels: nat)
    ensures
        scopes_are_numbered(body, Scope { temps, labels, loops: Seq::empty() }),
{
    lemma_scopes_are_numbered(body, Scope { temps, labels, loops: Seq::empty() });
}

} // verus!
