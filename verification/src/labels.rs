//! Every jump has its label, once.
//!
//! In the instructions of every lowered function, the label that a jump
//! names is defined by exactly one instruction of that function.

use vstd::prelude::*;
use crate::ast::{BlockItemView, DeclarationView, ExpressionView, StatementView};
use crate::ir::{FunView, InstructionView};
use crate::jumps::lemma_label_name_injective;
use crate::lowering::{
    following, label_name, lower_arguments, lower_declaration, lower_declarations,
    lower_expression, lower_for, lower_if, lower_inner_declaration, lower_items, lower_statement,
    lower_while, LoopContextView, LowererView, Scope,
};

verus! {

/// The label that an instruction jumps to, if it jumps.
pub open spec fn target(instr: InstructionView) -> Option<Seq<char>> {
    match instr {
        InstructionView::Goto(name) => Some(name),
        InstructionView::IfGoto { label, .. } => Some(label),
        _ => None,
    }
}

/// How many instructions of `code` define the label `name`.
pub open spec fn count_label(code: Seq<InstructionView>, name: Seq<char>) -> nat
    decreases code.len(),
{
    if code.len() == 0 {
        0
    } else {
        count_label(code.drop_last(), name) + if code.last() == InstructionView::Label(name) {
            1nat
        } else {
            0nat
        }
    }
}

/// Whether every label that an instruction of `code` jumps to is defined
/// by exactly one instruction of `code`.
pub open spec fn jumps_are_labelled_once(code: Seq<InstructionView>) -> bool {
    forall|i: int|
        0 <= i < code.len() ==> (#[trigger] target(code[i]) matches Some(name) ==> count_label(
            code,
            name,
        ) == 1)
}

/// Whether every function of `functions` defines the label of each of its
/// jumps exactly once.
pub open spec fn all_jumps_are_labelled_once(functions: Seq<FunView>) -> bool {
    forall|i: int|
        0 <= i < functions.len() ==> jumps_are_labelled_once(#[trigger] functions[i].body)
}

/// Whether `name` is the name of a label whose number is in `numbers`.
pub open spec fn numbered(name: Seq<char>, numbers: Set<nat>) -> bool {
    exists|k: nat| numbers.contains(k) && name == #[trigger] label_name(k)
}

/// The numbers from `lo` up to, not including, `hi`.
pub open spec fn range(lo: nat, hi: nat) -> Set<nat> {
    Set::new(|k: nat| lo <= k < hi)
}

/// Whether `name` is a label of one of `loops`.
pub open spec fn loop_label(loops: Seq<LoopContextView>, name: Seq<char>) -> bool {
    exists|i: int|
        0 <= i < loops.len() && ((#[trigger] loops[i]).break_label == name
            || loops[i].continue_label == name)
}

/// Whether `code` defines each label with a number in `numbers` once, and
/// no other label.
pub open spec fn defines(code: Seq<InstructionView>, numbers: Set<nat>) -> bool {
    forall|name: Seq<char>| #[trigger]
        count_label(code, name) == if numbered(name, numbers) {
            1nat
        } else {
            0nat
        }
}

/// Whether every jump of `code` goes to a label with a number in
/// `numbers` or to a label of one of `loops`.
pub open spec fn jumps_within(
    code: Seq<InstructionView>,
    numbers: Set<nat>,
    loops: Seq<LoopContextView>,
) -> bool {
    forall|i: int|
        0 <= i < code.len() ==> (#[trigger] target(code[i]) matches Some(name) ==> numbered(
            name,
            numbers,
        ) || loop_label(loops, name))
}

/// Whether `code` neither jumps nor defines a label.
pub open spec fn straight(code: Seq<InstructionView>) -> bool {
    forall|i: int|
        0 <= i < code.len() ==> target(#[trigger] code[i]) is None && !(code[i] is Label)
}

/// The labels defined in two runs of instructions are those defined in the
/// first and those defined in the second.
pub proof fn lemma_count_concat(a: Seq<InstructionView>, b: Seq<InstructionView>, name: Seq<char>)
    ensures
        count_label(a + b, name) == count_label(a, name) + count_label(b, name),
    decreases b.len(),
{
    if b.len() == 0 {
        assert(a + b =~= a);
    } else {
        assert((a + b).drop_last() =~= a + b.drop_last());
        assert((a + b).last() == b.last());
        lemma_count_concat(a, b.drop_last(), name);
    }
}

/// Straight code defines no label.
pub proof fn lemma_straight_defines_nothing(code: Seq<InstructionView>)
    requires
        straight(code),
    ensures
        defines(code, Set::empty()),
        forall|numbers: Set<nat>, loops: Seq<LoopContextView>|
            #[trigger] jumps_within(code, numbers, loops),
    decreases code.len(),
{
    if code.len() > 0 {
        let front = code.drop_last();
        assert(straight(front)) by {
            assert forall|i: int| 0 <= i < front.len() implies target(#[trigger] front[i]) is None
                && !(front[i] is Label) by {
                assert(front[i] == code[i]);
            }
        }
        lemma_straight_defines_nothing(front);
        assert(!(code[code.len() - 1] is Label));
    }
    assert forall|name: Seq<char>| #[trigger] count_label(code, name) == 0 by {
        if code.len() > 0 {
            assert(count_label(code.drop_last(), name) == 0);
        }
    }
}

/// One instruction that defines the label with number `k` defines that
/// label and no other.
pub proof fn lemma_label_defines_itself(k: nat)
    ensures
        defines(seq![InstructionView::Label(label_name(k))], set![k]),
        forall|reach: Set<nat>, loops: Seq<LoopContextView>| #[trigger]
            jumps_within(seq![InstructionView::Label(label_name(k))], reach, loops),
{
    let code = seq![InstructionView::Label(label_name(k))];
    assert(code.drop_last() =~= Seq::empty());
    assert forall|name: Seq<char>| #[trigger]
        count_label(code, name) == if numbered(name, set![k]) {
            1nat
        } else {
            0nat
        } by {
        assert(count_label(code.drop_last(), name) == 0);
        if name == label_name(k) {
            assert(set![k].contains(k));
        }
    }
}

/// Two runs of instructions that define labels with different numbers
/// define, one after the other, the labels of both.
pub proof fn lemma_defines_concat(
    a: Seq<InstructionView>,
    b: Seq<InstructionView>,
    first: Set<nat>,
    second: Set<nat>,
)
    requires
        defines(a, first),
        defines(b, second),
        first.disjoint(second),
    ensures
        defines(a + b, first.union(second)),
{
    let both = first.union(second);
    assert forall|name: Seq<char>| #[trigger]
        count_label(a + b, name) == if numbered(name, both) {
            1nat
        } else {
            0nat
        } by {
        lemma_count_concat(a, b, name);
        assert(count_label(a, name) == if numbered(name, first) { 1nat } else { 0nat });
        assert(count_label(b, name) == if numbered(name, second) { 1nat } else { 0nat });
        if numbered(name, first) {
            let k = choose|k: nat| first.contains(k) && name == #[trigger] label_name(k);
            assert(both.contains(k));
            if numbered(name, second) {
                let j = choose|j: nat| second.contains(j) && name == #[trigger] label_name(j);
                lemma_label_name_injective(k, j);
            }
        } else if numbered(name, second) {
            let j = choose|j: nat| second.contains(j) && name == #[trigger] label_name(j);
            assert(both.contains(j));
        } else if numbered(name, both) {
            let k = choose|k: nat| both.contains(k) && name == #[trigger] label_name(k);
            assert(first.contains(k) || second.contains(k));
        }
    }
}

/// Jumps that stay within some labels and loops stay within more labels
/// and the same loops.
pub proof fn lemma_jumps_within_more(
    code: Seq<InstructionView>,
    numbers: Set<nat>,
    more: Set<nat>,
    loops: Seq<LoopContextView>,
)
    requires
        jumps_within(code, numbers, loops),
        numbers.subset_of(more),
    ensures
        jumps_within(code, more, loops),
{
    assert forall|i: int| 0 <= i < code.len() implies (#[trigger] target(code[i]) matches Some(
        name,
    ) ==> numbered(name, more) || loop_label(loops, name)) by {
        if let Some(name) = target(code[i]) {
            if numbered(name, numbers) {
                let k = choose|k: nat| numbers.contains(k) && name == #[trigger] label_name(k);
                assert(more.contains(k));
            }
        }
    }
}

/// Jumps that stay within the labels of a loop and of the loops around it
/// stay within the loops around it and the numbers of its own labels.
pub proof fn lemma_jumps_within_loop(
    code: Seq<InstructionView>,
    numbers: Set<nat>,
    loops: Seq<LoopContextView>,
    break_number: nat,
    continue_number: nat,
)
    requires
        jumps_within(
            code,
            numbers,
            loops.push(
                LoopContextView {
                    break_label: label_name(break_number),
                    continue_label: label_name(continue_number),
                },
            ),
        ),
        numbers.contains(break_number),
        numbers.contains(continue_number),
    ensures
        jumps_within(code, numbers, loops),
{
    let own = LoopContextView {
        break_label: label_name(break_number),
        continue_label: label_name(continue_number),
    };
    let inside = loops.push(own);
    assert forall|i: int| 0 <= i < code.len() implies (#[trigger] target(code[i]) matches Some(
        name,
    ) ==> numbered(name, numbers) || loop_label(loops, name)) by {
        if let Some(name) = target(code[i]) {
            if !numbered(name, numbers) {
                let j = choose|j: int|
                    0 <= j < inside.len() && ((#[trigger] inside[j]).break_label == name
                        || inside[j].continue_label == name);
                if j < loops.len() {
                    assert(inside[j] == loops[j]);
                } else {
                    assert(inside[j] == own);
                    assert(name == label_name(break_number) || name == label_name(
                        continue_number,
                    ));
                }
            }
        }
    }
}

/// Two runs of instructions whose jumps stay within the same labels and
/// loops do so one after the other.
pub proof fn lemma_jumps_within_concat(
    a: Seq<InstructionView>,
    b: Seq<InstructionView>,
    numbers: Set<nat>,
    loops: Seq<LoopContextView>,
)
    requires
        jumps_within(a, numbers, loops),
        jumps_within(b, numbers, loops),
    ensures
        jumps_within(a + b, numbers, loops),
{
    let ab = a + b;
    assert forall|i: int| 0 <= i < ab.len() implies (#[trigger] target(ab[i]) matches Some(name)
        ==> numbered(name, numbers) || loop_label(loops, name)) by {
        if i < a.len() {
            assert(ab[i] == a[i]);
        } else {
            assert(ab[i] == b[i - a.len()]);
        }
    }
}

/// One jump to the label with number `k` defines no label and stays
/// within any labels of which `k` is one.
pub proof fn lemma_jump(instr: InstructionView, k: nat, numbers: Set<nat>)
    requires
        target(instr) == Some(label_name(k)),
        numbers.contains(k),
    ensures
        defines(seq![instr], Set::empty()),
        forall|loops: Seq<LoopContextView>| #[trigger] jumps_within(seq![instr], numbers, loops),
{
    let code = seq![instr];
    assert(code.drop_last() =~= Seq::empty());
    assert forall|name: Seq<char>| #[trigger] count_label(code, name) == 0 by {
        assert(count_label(code.drop_last(), name) == 0);
    }
    assert forall|loops: Seq<LoopContextView>| #[trigger]
        jumps_within(code, numbers, loops) by {
        assert forall|i: int| 0 <= i < code.len() implies (#[trigger] target(code[i]) matches Some(
            name,
        ) ==> numbered(name, numbers) || loop_label(loops, name)) by {
            assert(code[i] == instr);
        }
    }
}

/// Whether `code` defines exactly the labels with a number in `numbers`,
/// each once, and jumps only to labels with a number in `reach` or to
/// labels of `loops`.
pub open spec fn labelled(
    code: Seq<InstructionView>,
    numbers: Set<nat>,
    reach: Set<nat>,
    loops: Seq<LoopContextView>,
) -> bool {
    defines(code, numbers) && jumps_within(code, reach, loops)
}

/// No instructions define no label and jump nowhere.
pub proof fn lemma_nothing(reach: Set<nat>, loops: Seq<LoopContextView>)
    ensures
        labelled(Seq::empty(), Set::empty(), reach, loops),
{
    lemma_straight_defines_nothing(Seq::empty());
}

/// Straight code after `a` changes neither its labels nor its jumps.
pub proof fn lemma_then_straight(
    a: Seq<InstructionView>,
    numbers: Set<nat>,
    reach: Set<nat>,
    loops: Seq<LoopContextView>,
    b: Seq<InstructionView>,
)
    requires
        labelled(a, numbers, reach, loops),
        straight(b),
    ensures
        labelled(a + b, numbers, reach, loops),
{
    lemma_straight_defines_nothing(b);
    assert(jumps_within(b, reach, loops));
    lemma_defines_concat(a, b, numbers, Set::empty());
    assert(numbers.union(Set::empty()) =~= numbers);
    lemma_jumps_within_concat(a, b, reach, loops);
}

/// A jump after `a` to a label within reach changes neither its labels
/// nor where its jumps stay.
pub proof fn lemma_then_jump(
    a: Seq<InstructionView>,
    numbers: Set<nat>,
    reach: Set<nat>,
    loops: Seq<LoopContextView>,
    instr: InstructionView,
    k: nat,
)
    requires
        labelled(a, numbers, reach, loops),
        target(instr) == Some(label_name(k)),
        reach.contains(k),
    ensures
        labelled(a + seq![instr], numbers, reach, loops),
{
    lemma_jump(instr, k, reach);
    assert(jumps_within(seq![instr], reach, loops));
    lemma_defines_concat(a, seq![instr], numbers, Set::empty());
    assert(numbers.union(Set::empty()) =~= numbers);
    lemma_jumps_within_concat(a, seq![instr], reach, loops);
}

/// A new label after `a` adds its number to the labels of `a`.
pub proof fn lemma_then_label(
    a: Seq<InstructionView>,
    numbers: Set<nat>,
    reach: Set<nat>,
    loops: Seq<LoopContextView>,
    k: nat,
)
    requires
        labelled(a, numbers, reach, loops),
        !numbers.contains(k),
    ensures
        labelled(a + seq![InstructionView::Label(label_name(k))], numbers.insert(k), reach, loops),
{
    let b = seq![InstructionView::Label(label_name(k))];
    lemma_label_defines_itself(k);
    assert(jumps_within(b, reach, loops));
    lemma_defines_concat(a, b, numbers, set![k]);
    assert(numbers.union(set![k]) =~= numbers.insert(k));
    lemma_jumps_within_concat(a, b, reach, loops);
}

/// Code after `a` that defines other labels and jumps within reach adds
/// its labels to those of `a`.
pub proof fn lemma_then_code(
    a: Seq<InstructionView>,
    numbers: Set<nat>,
    reach: Set<nat>,
    loops: Seq<LoopContextView>,
    b: Seq<InstructionView>,
    more: Set<nat>,
)
    requires
        labelled(a, numbers, reach, loops),
        labelled(b, more, reach, loops),
        numbers.disjoint(more),
    ensures
        labelled(a + b, numbers.union(more), reach, loops),
{
    lemma_defines_concat(a, b, numbers, more);
    lemma_jumps_within_concat(a, b, reach, loops);
}

/// Straight code stays straight when an instruction that neither jumps
/// nor defines a label follows it.
pub proof fn lemma_straight_push(a: Seq<InstructionView>, instr: InstructionView)
    requires
        straight(a),
        target(instr) is None,
        !(instr is Label),
    ensures
        straight(a.push(instr)),
{
    let code = a.push(instr);
    assert forall|i: int| 0 <= i < code.len() implies target(#[trigger] code[i]) is None && !(
    code[i] is Label) by {
        if i < a.len() {
            assert(code[i] == a[i]);
        }
    }
}

/// Straight code after straight code is straight.
pub proof fn lemma_straight_concat(a: Seq<InstructionView>, b: Seq<InstructionView>)
    requires
        straight(a),
        straight(b),
    ensures
        straight(a + b),
{
    let code = a + b;
    assert forall|i: int| 0 <= i < code.len() implies target(#[trigger] code[i]) is None && !(
    code[i] is Label) by {
        if i < a.len() {
            assert(code[i] == a[i]);
        } else {
            assert(code[i] == b[i - a.len()]);
        }
    }
}

/// The instructions of a lowered expression neither jump nor define a
/// label.
pub proof fn lemma_expression_is_straight(e: ExpressionView, temps: nat)
    ensures
        lower_expression(e, temps) matches Ok(l) ==> straight(l.code),
    decreases e,
{
    reveal(lower_expression);
    reveal(lower_arguments);
    match e {
        ExpressionView::IntLiteral(_) => {},
        ExpressionView::CharLiteral(_) => {},
        ExpressionView::Variable(_) => {},
        ExpressionView::Assign { target, value } => {
            lemma_expression_is_straight(*value, temps);
            if let Ok(l) = lower_expression(e, temps) {
                let v = lower_expression(*value, temps)->Ok_0;
                lemma_straight_push(v.code, l.code.last());
            }
        },
        ExpressionView::Unary { operator, oper } => {
            lemma_expression_is_straight(*oper, temps);
            if let Ok(l) = lower_expression(e, temps) {
                let o = lower_expression(*oper, temps)->Ok_0;
                lemma_straight_push(o.code, l.code.last());
            }
        },
        ExpressionView::Binary { operator, left_oper, right_oper } => {
            lemma_expression_is_straight(*left_oper, temps);
            if let Ok(left) = lower_expression(*left_oper, temps) {
                lemma_expression_is_straight(*right_oper, left.temps);
                if let Ok(l) = lower_expression(e, temps) {
                    let right = lower_expression(*right_oper, left.temps)->Ok_0;
                    lemma_straight_concat(left.code, right.code);
                    lemma_straight_push(left.code + right.code, l.code.last());
                }
            }
        },
        ExpressionView::Call { name, args } => {
            lemma_arguments_are_straight(args, temps);
            if let Ok(l) = lower_expression(e, temps) {
                let a = lower_arguments(args, temps)->Ok_0;
                lemma_straight_push(a.code, l.code.last());
            }
        },
    }
}

/// The instructions of lowered arguments neither jump nor define a label.
pub proof fn lemma_arguments_are_straight(args: Seq<ExpressionView>, temps: nat)
    ensures
        lower_arguments(args, temps) matches Ok(a) ==> straight(a.code),
    decreases args,
{
    reveal(lower_expression);
    reveal(lower_arguments);
    if args.len() > 0 {
        lemma_arguments_are_straight(args.drop_last(), temps);
        if let Ok(front) = lower_arguments(args.drop_last(), temps) {
            lemma_expression_is_straight(args.last(), front.temps);
            if let Ok(last) = lower_expression(args.last(), front.temps) {
                lemma_straight_concat(front.code, last.code);
            }
        }
    }
}

/// The instructions of a lowered local declaration neither jump nor
/// define a label, and take no label.
pub proof fn lemma_inner_declaration_is_straight(d: DeclarationView, scope: Scope)
    ensures
        lower_inner_declaration(d, scope) matches Ok(l) ==> straight(l.code) && l.labels
            == scope.labels,
{
    if let DeclarationView::InitVariable { name, var_type, init } = d {
        lemma_expression_is_straight(init, scope.temps);
        if let Ok(l) = lower_inner_declaration(d, scope) {
            let v = lower_expression(init, scope.temps)->Ok_0;
            lemma_straight_push(v.code, l.code.last());
        }
    }
}

/// What holds of the labels of a statement lowered in `scope` to `code`,
/// with `labels` the next free label after it: the labels that it took
/// are defined in `code` once each, and no others; every jump in `code`
/// goes to one of them or to a label of a loop around the statement.
pub open spec fn well_labelled(code: Seq<InstructionView>, scope: Scope, labels: nat) -> bool {
    &&& scope.labels <= labels
    &&& labelled(code, range(scope.labels, labels), range(scope.labels, labels), scope.loops)
}

/// A statement is lowered to instructions that define the labels that it
/// takes, once each, and that jump only to those and to the labels of the
/// loops around it.
pub proof fn lemma_statement_is_well_labelled(s: StatementView, scope: Scope)
    ensures
        lower_statement(s, scope) matches Ok(l) ==> well_labelled(l.code, scope, l.labels),
    decreases s, 1nat,
{
    reveal(lower_statement);
    reveal(lower_items);
    reveal(lower_if);
    reveal(lower_while);
    reveal(lower_for);
    let none = range(scope.labels, scope.labels);
    assert(none =~= Set::empty());
    if let Ok(l) = lower_statement(s, scope) {
        match s {
            StatementView::Block { items } => {
                lemma_items_are_well_labelled(items, scope);
            },
            StatementView::Expr(e) => {
                lemma_expression_is_straight(e, scope.temps);
                lemma_straight_defines_nothing(l.code);
                assert(jumps_within(l.code, none, scope.loops));
            },
            StatementView::Return(Some(e)) => {
                lemma_expression_is_straight(e, scope.temps);
                let v = lower_expression(e, scope.temps)->Ok_0;
                lemma_straight_push(v.code, l.code.last());
                lemma_straight_defines_nothing(l.code);
                assert(jumps_within(l.code, none, scope.loops));
            },
            StatementView::Return(None) => {
                assert(straight(l.code));
                lemma_straight_defines_nothing(l.code);
                assert(jumps_within(l.code, none, scope.loops));
            },
            StatementView::Break => {
                lemma_jump_to_loop(scope, l.code[0]);
            },
            StatementView::Continue => {
                lemma_jump_to_loop(scope, l.code[0]);
            },
            StatementView::If { .. } => {
                lemma_if_is_well_labelled(s, scope);
            },
            StatementView::While { .. } => {
                lemma_while_is_well_labelled(s, scope);
            },
            StatementView::For { .. } => {
                lemma_for_is_well_labelled(s, scope);
            },
        }
    }
}

/// One jump to a label of the innermost loop defines no label and stays
/// within the loops.
pub proof fn lemma_jump_to_loop(scope: Scope, instr: InstructionView)
    requires
        scope.loops.len() > 0,
        instr == InstructionView::Goto(scope.loops.last().break_label) || instr
            == InstructionView::Goto(scope.loops.last().continue_label),
    ensures
        well_labelled(seq![instr], scope, scope.labels),
{
    let code = seq![instr];
    let none = range(scope.labels, scope.labels);
    assert(none =~= Set::empty());
    assert(code.drop_last() =~= Seq::empty());
    assert forall|name: Seq<char>| #[trigger] count_label(code, name) == 0 by {
        assert(count_label(code.drop_last(), name) == 0);
    }
    assert forall|i: int| 0 <= i < code.len() implies (#[trigger] target(code[i]) matches Some(
        name,
    ) ==> numbered(name, none) || loop_label(scope.loops, name)) by {
        let top = scope.loops.len() - 1;
        assert(scope.loops[top] == scope.loops.last());
    }
}

/// The items of a block are lowered to instructions that define the
/// labels that they take, once each, and that jump only to those and to
/// the labels of the loops around the block.
pub proof fn lemma_items_are_well_labelled(items: Seq<BlockItemView>, scope: Scope)
    ensures
        lower_items(items, scope) matches Ok(l) ==> well_labelled(l.code, scope, l.labels),
    decreases items, 0nat,
{
    reveal(lower_items);
    reveal(lower_statement);
    let lo = scope.labels;
    if let Ok(l) = lower_items(items, scope) {
        if items.len() == 0 {
            assert(range(lo, lo) =~= Set::empty());
            lemma_nothing(range(lo, lo), scope.loops);
        } else {
            lemma_items_are_well_labelled(items.drop_last(), scope);
            let front = lower_items(items.drop_last(), scope)->Ok_0;
            let inner = following(scope, front);
            let last = match items.last() {
                BlockItemView::Decl(d) => {
                    lemma_inner_declaration_is_straight(d, inner);
                    let last = lower_inner_declaration(d, inner)->Ok_0;
                    lemma_straight_defines_nothing(last.code);
                    assert(range(inner.labels, last.labels) =~= Set::empty());
                    assert(jumps_within(
                        last.code,
                        range(inner.labels, last.labels),
                        scope.loops,
                    ));
                    last
                },
                BlockItemView::Stmt(inner_statement) => {
                    lemma_statement_is_well_labelled(inner_statement, inner);
                    lower_statement(inner_statement, inner)->Ok_0
                },
            };
            let all = range(lo, last.labels);
            lemma_jumps_within_more(front.code, range(lo, front.labels), all, scope.loops);
            lemma_jumps_within_more(
                last.code,
                range(front.labels, last.labels),
                all,
                scope.loops,
            );
            lemma_then_code(
                front.code,
                range(lo, front.labels),
                all,
                scope.loops,
                last.code,
                range(front.labels, last.labels),
            );
            assert(range(lo, front.labels).union(range(front.labels, last.labels)) =~= all);
        }
    }
}

/// An `if` statement is lowered to instructions that define the labels
/// that it takes, once each, and that jump only to those and to the
/// labels of the loops around it.
pub proof fn lemma_if_is_well_labelled(s: StatementView, scope: Scope)
    requires
        s is If,
    ensures
        lower_if(s, scope) matches Ok(l) ==> well_labelled(l.code, scope, l.labels),
    decreases s, 0nat,
{
    reveal(lower_if);
    reveal(lower_statement);
    if let StatementView::If { cond, then_branch, else_branch } = s {
        if let Ok(l) = lower_if(s, scope) {
            let lo = scope.labels;
            let loops = scope.loops;
            let c = lower_expression(cond, scope.temps)->Ok_0;
            let inner = Scope { temps: c.temps, labels: lo + 3, loops };
            let t = lower_statement(*then_branch, inner)->Ok_0;
            lemma_expression_is_straight(cond, scope.temps);
            lemma_statement_is_well_labelled(*then_branch, inner);
            let e_code = match else_branch {
                Some(other) => {
                    lemma_statement_is_well_labelled(*other, following(scope, t));
                    lower_statement(*other, following(scope, t))->Ok_0.code
                },
                None => {
                    assert(range(t.labels, t.labels) =~= Set::empty());
                    lemma_nothing(range(t.labels, t.labels), loops);
                    Seq::empty()
                },
            };
            let all = range(lo, l.labels);
            let then_part = range((lo + 3) as nat, t.labels);
            let else_part = range(t.labels, l.labels);
            lemma_jumps_within_more(t.code, then_part, all, loops);
            lemma_jumps_within_more(e_code, else_part, all, loops);
            let branch = InstructionView::IfGoto { cond: c.value, label: label_name(lo) };
            let skip = InstructionView::Goto(label_name(lo + 1));
            let leave = InstructionView::Goto(label_name(lo + 2));
            let then_label = InstructionView::Label(label_name(lo));
            let else_label = InstructionView::Label(label_name(lo + 1));
            let end_label = InstructionView::Label(label_name(lo + 2));
            lemma_nothing(all, loops);
            let a0 = Seq::<InstructionView>::empty() + c.code;
            lemma_then_straight(Seq::empty(), Set::empty(), all, loops, c.code);
            let a1 = a0 + seq![branch];
            lemma_then_jump(a0, Set::empty(), all, loops, branch, lo);
            let a2 = a1 + seq![skip];
            lemma_then_jump(a1, Set::empty(), all, loops, skip, lo + 1);
            let a3 = a2 + seq![then_label];
            lemma_then_label(a2, Set::empty(), all, loops, lo);
            let n3 = Set::<nat>::empty().insert(lo);
            let a4 = a3 + t.code;
            lemma_then_code(a3, n3, all, loops, t.code, then_part);
            let n4 = n3.union(then_part);
            let a5 = a4 + seq![leave];
            lemma_then_jump(a4, n4, all, loops, leave, lo + 2);
            let a6 = a5 + seq![else_label];
            lemma_then_label(a5, n4, all, loops, lo + 1);
            let n6 = n4.insert(lo + 1);
            let a7 = a6 + e_code;
            lemma_then_code(a6, n6, all, loops, e_code, else_part);
            let n7 = n6.union(else_part);
            let a8 = a7 + seq![end_label];
            lemma_then_label(a7, n7, all, loops, lo + 2);
            assert(n7.insert(lo + 2) =~= all);
            assert(l.code =~= a8);
        }
    }
}

/// A `while` statement is lowered to instructions that define the labels
/// that it takes, once each, and that jump only to those and to the
/// labels of the loops around it.
pub proof fn lemma_while_is_well_labelled(s: StatementView, scope: Scope)
    requires
        s is While,
    ensures
        lower_while(s, scope) matches Ok(l) ==> well_labelled(l.code, scope, l.labels),
    decreases s, 0nat,
{
    reveal(lower_while);
    reveal(lower_statement);
    if let StatementView::While { cond, body } = s {
        if let Ok(l) = lower_while(s, scope) {
            let lo = scope.labels;
            let loops = scope.loops;
            let own = LoopContextView {
                break_label: label_name(lo + 2),
                continue_label: label_name(lo),
            };
            let c = lower_expression(cond, scope.temps)->Ok_0;
            let inner = Scope { temps: c.temps, labels: lo + 3, loops: loops.push(own) };
            let b = lower_statement(*body, inner)->Ok_0;
            lemma_expression_is_straight(cond, scope.temps);
            lemma_statement_is_well_labelled(*body, inner);
            let all = range(lo, l.labels);
            let body_part = range((lo + 3) as nat, b.labels);
            lemma_jumps_within_more(b.code, body_part, all, inner.loops);
            lemma_jumps_within_loop(b.code, all, loops, lo + 2, lo);
            let head = InstructionView::Goto(label_name(lo));
            let cond_label = InstructionView::Label(label_name(lo));
            let branch = InstructionView::IfGoto { cond: c.value, label: label_name(lo + 1) };
            let leave = InstructionView::Goto(label_name(lo + 2));
            let loop_label = InstructionView::Label(label_name(lo + 1));
            let end_label = InstructionView::Label(label_name(lo + 2));
            lemma_nothing(all, loops);
            let a0 = Seq::<InstructionView>::empty() + seq![head];
            lemma_then_jump(Seq::empty(), Set::empty(), all, loops, head, lo);
            let a1 = a0 + seq![cond_label];
            lemma_then_label(a0, Set::empty(), all, loops, lo);
            let n1 = Set::<nat>::empty().insert(lo);
            let a2 = a1 + c.code;
            lemma_then_straight(a1, n1, all, loops, c.code);
            let a3 = a2 + seq![branch];
            lemma_then_jump(a2, n1, all, loops, branch, lo + 1);
            let a4 = a3 + seq![leave];
            lemma_then_jump(a3, n1, all, loops, leave, lo + 2);
            let a5 = a4 + seq![loop_label];
            lemma_then_label(a4, n1, all, loops, lo + 1);
            let n5 = n1.insert(lo + 1);
            let a6 = a5 + b.code;
            lemma_then_code(a5, n5, all, loops, b.code, body_part);
            let n6 = n5.union(body_part);
            let a7 = a6 + seq![head];
            lemma_then_jump(a6, n6, all, loops, head, lo);
            let a8 = a7 + seq![end_label];
            lemma_then_label(a7, n6, all, loops, lo + 2);
            assert(n6.insert(lo + 2) =~= all);
            assert(l.code =~= a8);
        }
    }
}

/// A `for` statement is lowered to instructions that define the labels
/// that it takes, once each, and that jump only to those and to the
/// labels of the loops around it.
pub proof fn lemma_for_is_well_labelled(s: StatementView, scope: Scope)
    requires
        s is For,
    ensures
        lower_for(s, scope) matches Ok(l) ==> well_labelled(l.code, scope, l.labels),
    decreases s, 0nat,
{
    reveal(lower_for);
    reveal(lower_statement);
    if let StatementView::For { init, cond, inc, body } = s {
        if let Ok(l) = lower_for(s, scope) {
            let lo = scope.labels;
            let loops = scope.loops;
            let own = LoopContextView {
                break_label: label_name(lo + 3),
                continue_label: label_name(lo + 2),
            };
            let first = Scope { temps: scope.temps, labels: lo + 4, loops: loops.push(own) };
            let i = lower_inner_declaration(init, first)->Ok_0;
            let c = lower_expression(cond, i.temps)->Ok_0;
            let inner = Scope { temps: c.temps, labels: i.labels, loops: loops.push(own) };
            let b = lower_statement(*body, inner)->Ok_0;
            let n = lower_expression(inc, b.temps)->Ok_0;
            lemma_inner_declaration_is_straight(init, first);
            lemma_expression_is_straight(cond, i.temps);
            lemma_statement_is_well_labelled(*body, inner);
            lemma_expression_is_straight(inc, b.temps);
            let all = range(lo, l.labels);
            let body_part = range((lo + 4) as nat, b.labels);
            lemma_jumps_within_more(b.code, body_part, all, inner.loops);
            lemma_jumps_within_loop(b.code, all, loops, lo + 3, lo + 2);
            let head = InstructionView::Goto(label_name(lo));
            let cond_label = InstructionView::Label(label_name(lo));
            let branch = InstructionView::IfGoto { cond: c.value, label: label_name(lo + 1) };
            let leave = InstructionView::Goto(label_name(lo + 3));
            let loop_label = InstructionView::Label(label_name(lo + 1));
            let inc_label = InstructionView::Label(label_name(lo + 2));
            let end_label = InstructionView::Label(label_name(lo + 3));
            lemma_nothing(all, loops);
            let a0 = Seq::<InstructionView>::empty() + i.code;
            lemma_then_straight(Seq::empty(), Set::empty(), all, loops, i.code);
            let a1 = a0 + seq![head];
            lemma_then_jump(a0, Set::empty(), all, loops, head, lo);
            let a2 = a1 + seq![cond_label];
            lemma_then_label(a1, Set::empty(), all, loops, lo);
            let n2 = Set::<nat>::empty().insert(lo);
            let a3 = a2 + c.code;
            lemma_then_straight(a2, n2, all, loops, c.code);
            let a4 = a3 + seq![branch];
            lemma_then_jump(a3, n2, all, loops, branch, lo + 1);
            let a5 = a4 + seq![leave];
            lemma_then_jump(a4, n2, all, loops, leave, lo + 3);
            let a6 = a5 + seq![loop_label];
            lemma_then_label(a5, n2, all, loops, lo + 1);
            let n6 = n2.insert(lo + 1);
            let a7 = a6 + b.code;
            lemma_then_code(a6, n6, all, loops, b.code, body_part);
            let n7 = n6.union(body_part);
            let a8 = a7 + seq![inc_label];
            lemma_then_label(a7, n7, all, loops, lo + 2);
            let n8 = n7.insert(lo + 2);
            let a9 = a8 + n.code;
            lemma_then_straight(a8, n8, all, loops, n.code);
            let a10 = a9 + seq![head];
            lemma_then_jump(a9, n8, all, loops, head, lo);
            let a11 = a10 + seq![end_label];
            lemma_then_label(a10, n8, all, loops, lo + 3);
            assert(n8.insert(lo + 3) =~= all);
            assert(l.code =~= a11);
        }
    }
}

/// Code that defines the labels that it takes, once each, and jumps only
/// to those, with no loop around it, defines the label of each of its
/// jumps exactly once.
pub proof fn lemma_well_labelled_outside_loops(
    code: Seq<InstructionView>,
    scope: Scope,
    labels: nat,
)
    requires
        well_labelled(code, scope, labels),
        scope.loops.len() == 0,
    ensures
        jumps_are_labelled_once(code),
{
    let all = range(scope.labels, labels);
    assert forall|i: int| 0 <= i < code.len() implies (#[trigger] target(code[i]) matches Some(
        name,
    ) ==> count_label(code, name) == 1) by {
        if let Some(name) = target(code[i]) {
            assert(numbered(name, all) || loop_label(scope.loops, name));
            assert(count_label(code, name) == if numbered(name, all) { 1nat } else { 0nat });
        }
    }
}

/// Lowering a declaration keeps the functions that were lowered before,
/// and a function that it adds defines the label of each of its jumps
/// exactly once.
pub proof fn lemma_declaration_labels_jumps_once(d: DeclarationView, state: LowererView)
    requires
        all_jumps_are_labelled_once(state.functions),
    ensures
        lower_declaration(d, state) matches Ok(after) ==> all_jumps_are_labelled_once(
            after.functions,
        ),
{
    if let Ok(after) = lower_declaration(d, state) {
        if let DeclarationView::Function { name, ret_type, params, body } = d {
            let scope = Scope { temps: 0, labels: state.label_count, loops: Seq::empty() };
            lemma_statement_is_well_labelled(*body, scope);
            let b = lower_statement(*body, scope)->Ok_0;
            lemma_well_labelled_outside_loops(b.code, scope, b.labels);
            assert forall|i: int| 0 <= i < after.functions.len() implies jumps_are_labelled_once(
                #[trigger] after.functions[i].body,
            ) by {
                if i < state.functions.len() {
                    assert(after.functions[i] == state.functions[i]);
                }
            }
        }
    }
}

/// In every function of a lowered program, the label of each jump is
/// defined by exactly one instruction of that function.
pub proof fn lemma_program_labels_jumps_once(items: Seq<DeclarationView>, state: LowererView)
    requires
        all_jumps_are_labelled_once(state.functions),
    ensures
        lower_declarations(items, state) matches Ok(after) ==> all_jumps_are_labelled_once(
            after.functions,
        ),
    decreases items.len(),
{
    if items.len() > 0 {
        lemma_program_labels_jumps_once(items.drop_last(), state);
        if let Ok(front) = lower_declarations(items.drop_last(), state) {
            lemma_declaration_labels_jumps_once(items.last(), front);
        }
    }
}

/// Whether every label that a function of `functions` defines has a
/// number below `labels`.
pub open spec fn labels_are_below(functions: Seq<FunView>, labels: nat) -> bool {
    forall|i: int, name: Seq<char>|
        0 <= i < functions.len() && #[trigger] count_label(functions[i].body, name) > 0
            ==> numbered(name, range(0, labels))
}

/// Whether no label is defined in two functions of `functions`.
pub open spec fn no_label_is_shared(functions: Seq<FunView>) -> bool {
    forall|i: int, j: int, name: Seq<char>|
        0 <= i < j < functions.len() && #[trigger] count_label(functions[i].body, name) > 0
            ==> #[trigger] count_label(functions[j].body, name) == 0
}

/// A lowered function defines the labels with the numbers from the label
/// counter before it up to the label counter after it, and no others; a
/// lowered variable leaves the label counter as it is.
pub proof fn lemma_declaration_takes_new_labels(d: DeclarationView, state: LowererView)
    ensures
        lower_declaration(d, state) matches Ok(after) ==> {
            &&& state.label_count <= after.label_count
            &&& d is Function ==> after.functions.len() > 0 && defines(
                after.functions.last().body,
                range(state.label_count, after.label_count),
            )
            &&& d is InitVariable ==> after.label_count == state.label_count
                && after.functions == state.functions
        },
{
    if let DeclarationView::Function { name, ret_type, params, body } = d {
        let scope = Scope { temps: 0, labels: state.label_count, loops: Seq::empty() };
        lemma_statement_is_well_labelled(*body, scope);
    }
}

/// Lowering a declaration keeps the labels of different functions
/// different: the label counter runs through the whole module.
pub proof fn lemma_declaration_shares_no_label(d: DeclarationView, state: LowererView)
    requires
        labels_are_below(state.functions, state.label_count),
        no_label_is_shared(state.functions),
    ensures
        lower_declaration(d, state) matches Ok(after) ==> labels_are_below(
            after.functions,
            after.label_count,
        ) && no_label_is_shared(after.functions),
{
    if let Ok(after) = lower_declaration(d, state) {
        lemma_declaration_takes_new_labels(d, state);
        let lo = state.label_count;
        let hi = after.label_count;
        let old_len = state.functions.len() as int;
        assert forall|i: int, name: Seq<char>|
            0 <= i < after.functions.len() && #[trigger] count_label(
                after.functions[i].body,
                name,
            ) > 0 implies numbered(name, range(0, hi)) by {
            if i < old_len {
                assert(after.functions[i] == state.functions[i]);
                assert(numbered(name, range(0, lo)));
                let k = choose|k: nat| range(0, lo).contains(k) && name == #[trigger] label_name(k);
                assert(range(0, hi).contains(k));
            } else {
                assert(after.functions[i] == after.functions.last());
                assert(numbered(name, range(lo, hi)));
                let k = choose|k: nat|
                    range(lo, hi).contains(k) && name == #[trigger] label_name(k);
                assert(range(0, hi).contains(k));
            }
        }
        assert forall|i: int, j: int, name: Seq<char>|
            0 <= i < j < after.functions.len() && #[trigger] count_label(
                after.functions[i].body,
                name,
            ) > 0 implies #[trigger] count_label(after.functions[j].body, name) == 0 by {
            assert(after.functions[i] == state.functions[i]);
            if j < old_len {
                assert(after.functions[j] == state.functions[j]);
            } else {
                assert(after.functions[j] == after.functions.last());
                if count_label(after.functions[j].body, name) > 0 {
                    assert(numbered(name, range(0, lo)));
                    assert(numbered(name, range(lo, hi)));
                    let a = choose|k: nat|
                        range(0, lo).contains(k) && name == #[trigger] label_name(k);
                    let b = choose|k: nat|
                        range(lo, hi).contains(k) && name == #[trigger] label_name(k);
                    lemma_label_name_injective(a, b);
                }
            }
        }
    }
}

/// In a lowered program, no label is defined in two functions.
pub proof fn lemma_program_shares_no_label(items: Seq<DeclarationView>, state: LowererView)
    requires
        labels_are_below(state.functions, state.label_count),
        no_label_is_shared(state.functions),
    ensures
        lower_declarations(items, state) matches Ok(after) ==> labels_are_below(
            after.functions,
            after.label_count,
        ) && no_label_is_shared(after.functions),
    decreases items.len(),
{
    if items.len() > 0 {
        lemma_program_shares_no_label(items.drop_last(), state);
        if let Ok(front) = lower_declarations(items.drop_last(), state) {
            lemma_declaration_shares_no_label(items.last(), front);
        }
    }
}

} // verus!
