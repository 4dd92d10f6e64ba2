//! The lowerer: a syntax tree to flat instructions with labels and jumps.

use vstd::prelude::*;
use crate::ast::{
    block_item_views, declaration_views, expression_views, lemma_block_view, lemma_call_view,
    BlockItem, Declaration, Expression, ExpressionView, Program, Statement, StatementView,
};
use crate::ir::{
    copy_functions, copy_globals, copy_instructions, copy_parameters, fun_views, glob_views,
    instruction_views, value_views, Fun, Glob, Instruction, InstructionView, Module, ModuleView,
    Value, ValueView,
};
use crate::lowering;
use crate::labels::no_label_is_shared;
use crate::sound::{
    all_well_formed, lemma_declaration_keeps_sound, lemma_more_labels_keep_sound, sound,
};
use crate::lowering::{
    decimal_digits, digit_char, following, fresh, label_name, scope_of, LoopContextView,
    LowerError, Lowered, LoweredExpression, LowererView, Stopped, StoppedExpression,
};

verus! {

/// The labels that `break` and `continue` jump to inside one loop.
pub struct LoopContext {
    pub break_label: String,
    pub continue_label: String,
}

impl View for LoopContext {
    type V = LoopContextView;

    open spec fn view(&self) -> LoopContextView {
        LoopContextView { break_label: self.break_label@, continue_label: self.continue_label@ }
    }
}

/// The values of a stack of loop contexts, one for one.
pub open spec fn loop_views(stack: Seq<LoopContext>) -> Seq<LoopContextView> {
    Seq::new(stack.len(), |i: int| stack[i]@)
}

/// The state `before` after `code` was added to its instructions and its
/// counters became `temps` and `labels`.
pub open spec fn extended(
    before: LowererView,
    code: Seq<InstructionView>,
    temps: nat,
    labels: nat,
) -> LowererView {
    LowererView {
        globals: before.globals,
        functions: before.functions,
        instructions: before.instructions + code,
        temp_count: temps,
        label_count: labels,
        loop_stack: before.loop_stack,
    }
}

/// Adding instructions twice is adding them all at once.
pub proof fn lemma_extended_twice(
    before: LowererView,
    first: Seq<InstructionView>,
    temps: nat,
    labels: nat,
    second: Seq<InstructionView>,
    temps_after: nat,
    labels_after: nat,
)
    ensures
        extended(extended(before, first, temps, labels), second, temps_after, labels_after)
            == extended(before, first + second, temps_after, labels_after),
{
    assert((before.instructions + first) + second =~= before.instructions + (first + second));
}

/// A step that adds `more` to a lowerer that has added `code` to `base`
/// leaves one that has added both.
pub proof fn lemma_step(
    base: LowererView,
    code: Seq<InstructionView>,
    pre: LowererView,
    more: Seq<InstructionView>,
    post: LowererView,
)
    requires
        pre == extended(base, code, pre.temp_count, pre.label_count),
        post == extended(pre, more, post.temp_count, post.label_count),
    ensures
        post == extended(base, code + more, post.temp_count, post.label_count),
{
    assert((base.instructions + code) + more =~= base.instructions + (code + more));
}

/// Whether a lowerer that went from `before` to `after` and returned
/// `result` lowered an expression as `expected` says: the value, with the
/// instructions added and the temporaries counted; or the error, with the
/// instructions that came before it added and nothing after it. Nothing
/// else changes either way.
pub open spec fn lowered_expression(
    before: LowererView,
    after: LowererView,
    expected: Result<LoweredExpression, StoppedExpression>,
    result: Result<Value, LowerError>,
) -> bool {
    match expected {
        Ok(l) => result matches Ok(value) && value@ == l.value && after == extended(
            before,
            l.code,
            l.temps,
            before.label_count,
        ),
        Err(stopped) => result == Err::<Value, LowerError>(stopped.error) && after == extended(
            before,
            stopped.code,
            stopped.temps,
            before.label_count,
        ),
    }
}

/// Whether a lowerer that went from `before` to `after` and returned
/// `result` lowered a statement as `expected` says: the instructions added
/// and the counters moved on; or the error, with the instructions that
/// came before it added and nothing after it. Either way the module and
/// the loops are as they were, and no label is given back.
pub open spec fn lowered_statement(
    before: LowererView,
    after: LowererView,
    expected: Result<Lowered, Stopped>,
    result: Result<(), LowerError>,
) -> bool {
    &&& match expected {
        Ok(l) => result is Ok && after == extended(before, l.code, l.temps, l.labels),
        Err(stopped) => result == Err::<(), LowerError>(stopped.error) && after == extended(
            before,
            stopped.code,
            stopped.temps,
            stopped.labels,
        ),
    }
    &&& after.label_count >= before.label_count
}

/// The decimal digit for a number below ten (and `9` for any other).
pub fn digit_of(d: usize) -> (c: char)
    ensures
        c == digit_char(d as nat),
{
    if d == 0 {
        '0'
    } else if d == 1 {
        '1'
    } else if d == 2 {
        '2'
    } else if d == 3 {
        '3'
    } else if d == 4 {
        '4'
    } else if d == 5 {
        '5'
    } else if d == 6 {
        '6'
    } else if d == 7 {
        '7'
    } else if d == 8 {
        '8'
    } else {
        '9'
    }
}

/// The name of the label with number `n`.
pub fn label_text(n: usize) -> (name: String)
    ensures
        name@ == label_name(n as nat),
{
    let mut low: Vec<char> = Vec::new();
    let mut rest: usize = n;
    while rest >= 10
        invariant
            decimal_digits(n as nat) == decimal_digits(rest as nat) + low@.reverse(),
        decreases rest,
    {
        let ghost before = low@;
        let d = digit_of(rest % 10);
        low.push(d);
        rest = rest / 10;
        proof {
            assert(low@.reverse() =~= seq![d] + before.reverse());
            assert(decimal_digits(rest as nat).push(d) + before.reverse() =~= decimal_digits(
                rest as nat,
            ) + (seq![d] + before.reverse()));
        }
    }
    let mut name = String::new();
    name.push('L');
    name.push(digit_of(rest));
    let mut i: usize = low.len();
    while i > 0
        invariant
            i <= low.len(),
            rest < 10,
            name@ == seq!['L'] + (seq![digit_char(rest as nat)] + low@.reverse().take(
                low.len() - i,
            )),
        decreases i,
    {
        i -= 1;
        name.push(low[i]);
        proof {
            let r = low@.reverse();
            let k = low.len() - i - 1;
            assert(r[k] == low[i as int]);
            assert(r.take(k + 1) =~= r.take(k).push(r[k]));
        }
    }
    proof {
        assert(low@.reverse().take(low.len() as int) =~= low@.reverse());
    }
    name
}

/// Lowers a program, a declaration at a time.
pub struct Lowerer {
    globals: Vec<Glob>,
    functions: Vec<Fun>,
    instructions: Vec<Instruction>,
    temp_count: usize,
    label_count: usize,
    loop_stack: Vec<LoopContext>,
}

impl View for Lowerer {
    type V = LowererView;

    closed spec fn view(&self) -> LowererView {
        LowererView {
            globals: glob_views(self.globals@),
            functions: fun_views(self.functions@),
            instructions: instruction_views(self.instructions@),
            temp_count: self.temp_count as nat,
            label_count: self.label_count as nat,
            loop_stack: loop_views(self.loop_stack@),
        }
    }
}

impl Lowerer {
    /// A lowerer that has lowered nothing. The program is not read: a
    /// lowerer starts out the same whatever it is to lower.
    pub fn new(_program: Program) -> (lowerer: Lowerer)
        ensures
            lowerer@ == fresh(),
            sound(lowerer@),
    {
        let lowerer = Lowerer {
            globals: Vec::new(),
            functions: Vec::new(),
            instructions: Vec::new(),
            temp_count: 0,
            label_count: 0,
            loop_stack: Vec::new(),
        };
        proof {
            assert(lowerer@.globals =~= Seq::empty());
            assert(lowerer@.functions =~= Seq::empty());
            assert(lowerer@.instructions =~= Seq::empty());
            assert(lowerer@.loop_stack =~= Seq::empty());
        }
        lowerer
    }

    /// The instructions of the function being lowered, as they stand.
    pub fn instructions(&self) -> (code: Vec<Instruction>)
        ensures
            instruction_views(code@) == self@.instructions,
    {
        copy_instructions(&self.instructions)
    }

    /// Starts a function: no temporaries, no instructions, no enclosing
    /// loop. The module and the label counter stay.
    pub fn clear_state(&mut self)
        ensures
            final(self)@ == (LowererView {
                globals: old(self)@.globals,
                functions: old(self)@.functions,
                instructions: Seq::empty(),
                temp_count: 0,
                label_count: old(self)@.label_count,
                loop_stack: Seq::empty(),
            }),
    {
        self.temp_count = 0;
        self.loop_stack = Vec::new();
        self.instructions = Vec::new();
        proof {
            assert(self@.instructions =~= Seq::empty());
            assert(self@.loop_stack =~= Seq::empty());
        }
    }

    /// Adds one instruction to the function being lowered.
    pub fn emit(&mut self, instr: Instruction)
        ensures
            final(self)@ == extended(
                old(self)@,
                seq![instr@],
                old(self)@.temp_count,
                old(self)@.label_count,
            ),
    {
        self.instructions.push(instr);
        proof {
            assert(self@.instructions =~= old(self)@.instructions + seq![instr@]);
        }
    }

    /// Takes the next temporary, unless they are all taken.
    pub fn next_temp(&mut self) -> (result: Result<Value, LowerError>)
        ensures
            match result {
                Ok(value) => old(self)@.temp_count < usize::MAX && value@ == ValueView::Temp(
                    old(self)@.temp_count,
                ) && final(self)@ == extended(
                    old(self)@,
                    Seq::empty(),
                    old(self)@.temp_count + 1,
                    old(self)@.label_count,
                ),
                Err(error) => old(self)@.temp_count >= usize::MAX && error
                    == LowerError::TooManyTemporaries && final(self)@ == old(self)@,
            },
    {
        if self.temp_count == usize::MAX {
            return Err(LowerError::TooManyTemporaries);
        }
        let count = self.temp_count;
        self.temp_count += 1;
        proof {
            assert(self@.instructions =~= old(self)@.instructions + Seq::empty());
        }
        Ok(Value::Temp(count))
    }

    /// Takes the next label, unless they are all taken.
    pub fn next_label(&mut self) -> (result: Result<String, LowerError>)
        ensures
            match result {
                Ok(name) => old(self)@.label_count < usize::MAX && name@ == label_name(
                    old(self)@.label_count,
                ) && final(self)@ == extended(
                    old(self)@,
                    Seq::empty(),
                    old(self)@.temp_count,
                    old(self)@.label_count + 1,
                ),
                Err(error) => old(self)@.label_count >= usize::MAX && error
                    == LowerError::TooManyLabels && final(self)@ == old(self)@,
            },
    {
        if self.label_count == usize::MAX {
            return Err(LowerError::TooManyLabels);
        }
        let count = self.label_count;
        self.label_count += 1;
        proof {
            assert(self@.instructions =~= old(self)@.instructions + Seq::empty());
        }
        Ok(label_text(count))
    }

    /// Lowers an expression: adds the instructions that compute it and
    /// returns where its value then lives.
    ///
    /// Fails on a character literal, on an assignment to anything but a
    /// variable, and where the temporaries run out.
    pub fn lower_expression(&mut self, expr: &Expression) -> (result: Result<Value, LowerError>)
        ensures
            lowered_expression(
                old(self)@,
                final(self)@,
                lowering::lower_expression(expr@, old(self)@.temp_count),
                result,
            ),
        decreases expr,
    {
        reveal(lowering::lower_expression);
        reveal(lowering::lower_arguments);
        let ghost start = self@;
        proof {
            assert(start.instructions + Seq::empty() =~= start.instructions);
        }
        match expr {
            Expression::IntLiteral(n) => Ok(Value::Const(*n)),
            Expression::CharLiteral(_) => Err(LowerError::CharLiteral),
            Expression::Variable(name) => Ok(Value::Var(name.clone())),
            Expression::Assign { target, value } => {
                let right = match self.lower_expression(value) {
                    Ok(right) => right,
                    Err(error) => {
                        return Err(error);
                    },
                };
                match &**target {
                    Expression::Variable(name) => {
                        let ghost lowered = self@;
                        assert((**target).model() == ExpressionView::Variable(name@));
                        self.emit(Instruction::Assign(Value::Var(name.clone()), right));
                        proof {
                            let v = lowering::lower_expression(value@, start.temp_count)->Ok_0;
                            assert(v.code + seq![
                                InstructionView::Assign(ValueView::Var(name@), right@),
                            ] =~= v.code.push(
                                InstructionView::Assign(ValueView::Var(name@), right@),
                            ));
                            lemma_extended_twice(
                                start,
                                lowering::lower_expression(value@, start.temp_count)->Ok_0.code,
                                lowered.temp_count,
                                lowered.label_count,
                                seq![
                                    InstructionView::Assign(ValueView::Var(name@), right@),
                                ],
                                lowered.temp_count,
                                lowered.label_count,
                            );
                        }
                        Ok(Value::Var(name.clone()))
                    },
                    _ => {
                        assert(!((**target).model() is Variable));
                        Err(LowerError::AssignToNonVariable)
                    },
                }
            },
            Expression::Unary { operator, oper } => {
                let value = match self.lower_expression(oper) {
                    Ok(value) => value,
                    Err(error) => {
                        return Err(error);
                    },
                };
                let ghost lowered = self@;
                let dest = match self.next_temp() {
                    Ok(dest) => dest,
                    Err(error) => {
                        return Err(error);
                    },
                };
                let ghost counted = self@;
                let instr = Instruction::Unary {
                    dest: dest.clone(),
                    operator: *operator,
                    oper: value,
                };
                self.emit(instr);
                proof {
                    let o = lowering::lower_expression(oper@, start.temp_count)->Ok_0;
                    assert(o.code + seq![instr@] =~= o.code.push(instr@));
                    assert(counted.instructions =~= lowered.instructions);
                    lemma_extended_twice(
                        start,
                        lowering::lower_expression(oper@, start.temp_count)->Ok_0.code,
                        lowered.temp_count,
                        lowered.label_count,
                        seq![instr@],
                        counted.temp_count,
                        counted.label_count,
                    );
                }
                Ok(dest)
            },
            Expression::Binary { operator, left_oper, right_oper } => {
                let left = match self.lower_expression(left_oper) {
                    Ok(left) => left,
                    Err(error) => {
                        return Err(error);
                    },
                };
                let ghost first = self@;
                let ghost l = lowering::lower_expression(left_oper@, start.temp_count)->Ok_0;
                let right = match self.lower_expression(right_oper) {
                    Ok(right) => right,
                    Err(error) => {
                        proof {
                            let stopped = lowering::lower_expression(right_oper@, l.temps)->Err_0;
                            lemma_extended_twice(
                                start,
                                l.code,
                                first.temp_count,
                                first.label_count,
                                stopped.code,
                                stopped.temps,
                                first.label_count,
                            );
                        }
                        return Err(error);
                    },
                };
                let ghost second = self@;
                let dest = match self.next_temp() {
                    Ok(dest) => dest,
                    Err(error) => {
                        proof {
                            lemma_extended_twice(
                                start,
                                l.code,
                                first.temp_count,
                                first.label_count,
                                lowering::lower_expression(right_oper@, l.temps)->Ok_0.code,
                                second.temp_count,
                                second.label_count,
                            );
                        }
                        return Err(error);
                    },
                };
                let ghost counted = self@;
                let instr = Instruction::Binary {
                    dest: dest.clone(),
                    operator: *operator,
                    left_oper: left,
                    right_oper: right,
                };
                self.emit(instr);
                proof {
                    let l = lowering::lower_expression(left_oper@, start.temp_count)->Ok_0;
                    let r = lowering::lower_expression(right_oper@, l.temps)->Ok_0;
                    assert((l.code + r.code) + seq![instr@] =~= (l.code + r.code).push(instr@));
                    assert(counted.instructions =~= second.instructions);
                    lemma_extended_twice(
                        start,
                        l.code,
                        first.temp_count,
                        first.label_count,
                        r.code,
                        second.temp_count,
                        second.label_count,
                    );
                    lemma_extended_twice(
                        start,
                        l.code + r.code,
                        second.temp_count,
                        second.label_count,
                        seq![instr@],
                        counted.temp_count,
                        counted.label_count,
                    );
                }
                Ok(dest)
            },
            Expression::Call { name, args } => {
                let ghost all = expression_views(args@);
                proof {
                    lemma_call_view(*name, *args);
                    assert(all.take(0) =~= Seq::empty());
                }
                let mut values: Vec<Value> = Vec::new();
                let mut i: usize = 0;
                while i < args.len()
                    invariant
                        i <= args.len(),
                        all == expression_views(args@),
                        *expr is Call,
                        expr->args == *args,
                        expr@ == (ExpressionView::Call { name: name@, args: all }),
                        start == old(self)@,
                        lowering::lower_arguments(all.take(i as int), start.temp_count) matches Ok(
                            a,
                        ) && value_views(values@) == a.values && self@ == extended(
                            start,
                            a.code,
                            a.temps,
                            start.label_count,
                        ),
                    decreases args.len() - i,
                {
                    reveal(lowering::lower_expression);
                    reveal(lowering::lower_arguments);
                    let ghost front = lowering::lower_arguments(
                        all.take(i as int),
                        start.temp_count,
                    )->Ok_0;
                    let ghost before = value_views(values@);
                    proof {
                        assert(all.take(i + 1).drop_last() =~= all.take(i as int));
                        assert(all.take(i + 1).last() == args[i as int]@);
                    }
                    match self.lower_expression(&args[i]) {
                        Ok(value) => {
                            values.push(value);
                            proof {
                                let last = lowering::lower_expression(
                                    args[i as int]@,
                                    front.temps,
                                )->Ok_0;
                                assert(value_views(values@) =~= before.push(value@));
                                lemma_extended_twice(
                                    start,
                                    front.code,
                                    front.temps,
                                    start.label_count,
                                    last.code,
                                    last.temps,
                                    start.label_count,
                                );
                            }
                        },
                        Err(error) => {
                            proof {
                                lowering::lemma_lower_arguments_stops(
                                    all,
                                    i + 1,
                                    start.temp_count,
                                );
                                let stopped = lowering::lower_expression(
                                    args[i as int]@,
                                    front.temps,
                                )->Err_0;
                                lemma_extended_twice(
                                    start,
                                    front.code,
                                    front.temps,
                                    start.label_count,
                                    stopped.code,
                                    stopped.temps,
                                    start.label_count,
                                );
                            }
                            return Err(error);
                        },
                    }
                    i += 1;
                }
                proof {
                    assert(all.take(args.len() as int) =~= all);
                }
                let ghost lowered = self@;
                let dest = match self.next_temp() {
                    Ok(dest) => dest,
                    Err(error) => {
                        return Err(error);
                    },
                };
                let ghost counted = self@;
                let instr = Instruction::Call {
                    dest: dest.clone(),
                    name: name.clone(),
                    args: values,
                };
                self.emit(instr);
                proof {
                    let a = lowering::lower_arguments(all, start.temp_count)->Ok_0;
                    assert(a.code + seq![instr@] =~= a.code.push(instr@));
                    assert(counted.instructions =~= lowered.instructions);
                    lemma_extended_twice(
                        start,
                        lowering::lower_arguments(all, start.temp_count)->Ok_0.code,
                        lowered.temp_count,
                        lowered.label_count,
                        seq![instr@],
                        counted.temp_count,
                        counted.label_count,
                    );
                }
                Ok(dest)
            },
        }
    }

    /// Lowers a declaration inside a function: computes the initial value
    /// and copies it into the variable. Fails on a function, and then
    /// changes nothing.
    pub fn lower_inner_declaration(&mut self, decl: &Declaration) -> (result: Result<
        (),
        LowerError,
    >)
        ensures
            lowered_statement(
                old(self)@,
                final(self)@,
                lowering::lower_inner_declaration(decl@, scope_of(old(self)@)),
                result,
            ),
    {
        let ghost start = self@;
        proof {
            assert(start.instructions + Seq::empty() =~= start.instructions);
        }
        match decl {
            Declaration::InitVariable { name, var_type, init } => {
                let value = match self.lower_expression(init) {
                    Ok(value) => value,
                    Err(error) => {
                        proof {
                            let stopped = lowering::lower_expression(
                                init@,
                                start.temp_count,
                            )->Err_0;
                            assert(Seq::empty() + stopped.code =~= stopped.code);
                        }
                        return Err(error);
                    },
                };
                let instr = Instruction::Assign(Value::Var(name.clone()), value);
                self.emit(instr);
                proof {
                    let v = lowering::lower_expression(init@, start.temp_count)->Ok_0;
                    assert(self@.instructions =~= start.instructions + v.code.push(instr@));
                }
                Ok(())
            },
            Declaration::Function { .. } => Err(LowerError::NestedFunction),
        }
    }

    /// Lowers a statement: adds its instructions to the function being
    /// lowered.
    ///
    /// Fails on `break` or `continue` outside a loop, on a function
    /// declared inside, on an expression that cannot be lowered, and where
    /// the labels run out. Nothing is added after the failure, and the
    /// loops are left as they were found.
    pub fn lower_statement(&mut self, stmt: &Statement) -> (result: Result<(), LowerError>)
        ensures
            lowered_statement(
                old(self)@,
                final(self)@,
                lowering::lower_statement(stmt@, scope_of(old(self)@)),
                result,
            ),
        decreases stmt, 1nat,
    {
        reveal(lowering::lower_statement);
        reveal(lowering::lower_if);
        reveal(lowering::lower_while);
        reveal(lowering::lower_for);
        let ghost start = self@;
        proof {
            assert(start.instructions + Seq::empty() =~= start.instructions);
        }
        match stmt {
            Statement::Block { .. } => self.lower_block(stmt),
            Statement::Expr(e) => match self.lower_expression(e) {
                Ok(_) => Ok(()),
                Err(error) => {
                    proof {
                        let stopped = lowering::lower_expression(e@, start.temp_count)->Err_0;
                        assert(Seq::empty() + stopped.code =~= stopped.code);
                    }
                    Err(error)
                },
            },
            Statement::Return(Some(e)) => {
                let value = match self.lower_expression(e) {
                    Ok(value) => value,
                    Err(error) => {
                        proof {
                            let stopped = lowering::lower_expression(e@, start.temp_count)->Err_0;
                            assert(Seq::empty() + stopped.code =~= stopped.code);
                        }
                        return Err(error);
                    },
                };
                let instr = Instruction::Return(Some(value));
                self.emit(instr);
                proof {
                    let v = lowering::lower_expression(e@, start.temp_count)->Ok_0;
                    assert(self@.instructions =~= start.instructions + v.code.push(instr@));
                }
                Ok(())
            },
            Statement::Return(None) => {
                self.emit(Instruction::Return(None));
                Ok(())
            },
            Statement::Break => {
                let depth = self.loop_stack.len();
                if depth == 0 {
                    return Err(LowerError::BreakOutsideLoop);
                }
                let label = self.loop_stack[depth - 1].break_label.clone();
                self.emit(Instruction::Goto(label));
                Ok(())
            },
            Statement::Continue => {
                let depth = self.loop_stack.len();
                if depth == 0 {
                    return Err(LowerError::ContinueOutsideLoop);
                }
                let label = self.loop_stack[depth - 1].continue_label.clone();
                self.emit(Instruction::Goto(label));
                Ok(())
            },
            Statement::If { .. } => self.lower_if(stmt),
            Statement::While { .. } => self.lower_while(stmt),
            Statement::For { .. } => self.lower_for(stmt),
        }
    }

    /// Lowers a block: its items in order.
    fn lower_block(&mut self, stmt: &Statement) -> (result: Result<(), LowerError>)
        requires
            stmt is Block,
        ensures
            lowered_statement(
                old(self)@,
                final(self)@,
                lowering::lower_statement(stmt@, scope_of(old(self)@)),
                result,
            ),
        decreases stmt, 0nat,
    {
        reveal(lowering::lower_statement);
        reveal(lowering::lower_items);
        let ghost start = self@;
        let ghost scope = scope_of(start);
        match stmt {
            Statement::Block { items } => {
                let ghost all = block_item_views(items@);
                proof {
                    lemma_block_view(*items);
                    assert(all.take(0) =~= Seq::empty());
                    assert(start.instructions + Seq::empty() =~= start.instructions);
                }
                let mut i: usize = 0;
                while i < items.len()
                    invariant
                        i <= items.len(),
                        all == block_item_views(items@),
                        *stmt is Block,
                        stmt->items == *items,
                        stmt@ == (StatementView::Block { items: all }),
                        start == old(self)@,
                        scope == scope_of(start),
                        lowering::lower_items(all.take(i as int), scope) matches Ok(f) && self@
                            == extended(start, f.code, f.temps, f.labels),
                        self@.label_count >= start.label_count,
                    decreases items.len() - i,
                {
                    reveal(lowering::lower_statement);
                    reveal(lowering::lower_items);
                    let ghost front = lowering::lower_items(all.take(i as int), scope)->Ok_0;
                    proof {
                        assert(all.take(i + 1).drop_last() =~= all.take(i as int));
                        assert(all.take(i + 1).last() == items[i as int]@);
                        assert(scope_of(self@) == following(scope, front));
                    }
                    let outcome = match &items[i] {
                        BlockItem::Decl(decl) => self.lower_inner_declaration(decl),
                        BlockItem::Stmt(inner) => self.lower_statement(inner),
                    };
                    match outcome {
                        Ok(_) => {
                            proof {
                                let last = lowering::lower_items(all.take(i + 1), scope)->Ok_0;
                                assert(self@.instructions =~= start.instructions + last.code);
                            }
                        },
                        Err(error) => {
                            proof {
                                let last = lowering::lower_items(all.take(i + 1), scope)->Err_0;
                                assert(self@.instructions =~= start.instructions + last.code);
                                lowering::lemma_lower_items_stops(all, i + 1, scope);
                            }
                            return Err(error);
                        },
                    }
                    i += 1;
                }
                proof {
                    assert(all.take(items.len() as int) =~= all);
                }
                Ok(())
            },
            _ => Ok(()),
        }
    }

    /// Takes three labels in a row, or none where fewer are left.
    fn next_labels(&mut self) -> (result: Result<(String, String, String), LowerError>)
        ensures
            match result {
                Ok(names) => old(self)@.label_count + 3 <= usize::MAX && names.0@ == label_name(
                    old(self)@.label_count,
                ) && names.1@ == label_name(old(self)@.label_count + 1) && names.2@ == label_name(
                    old(self)@.label_count + 2,
                ) && final(self)@ == extended(
                    old(self)@,
                    Seq::empty(),
                    old(self)@.temp_count,
                    old(self)@.label_count + 3,
                ),
                Err(error) => old(self)@.label_count + 3 > usize::MAX && error
                    == LowerError::TooManyLabels && final(self)@ == old(self)@,
            },
    {
        if self.label_count > usize::MAX - 3 {
            return Err(LowerError::TooManyLabels);
        }
        let first = match self.next_label() {
            Ok(name) => name,
            Err(error) => {
                return Err(error);
            },
        };
        let second = match self.next_label() {
            Ok(name) => name,
            Err(error) => {
                return Err(error);
            },
        };
        let third = match self.next_label() {
            Ok(name) => name,
            Err(error) => {
                return Err(error);
            },
        };
        proof {
            assert(self@.instructions =~= old(self)@.instructions + Seq::empty());
        }
        Ok((first, second, third))
    }

    /// Lowers an `if` statement.
    fn lower_if(&mut self, stmt: &Statement) -> (result: Result<(), LowerError>)
        requires
            stmt is If,
        ensures
            lowered_statement(
                old(self)@,
                final(self)@,
                lowering::lower_if(stmt@, scope_of(old(self)@)),
                result,
            ),
        decreases stmt, 0nat,
    {
        reveal(lowering::lower_if);
        reveal(lowering::lower_statement);
        let ghost start = self@;
        proof {
            assert(start.instructions + Seq::empty() =~= start.instructions);
        }
        match stmt {
            Statement::If { cond, then_branch, else_branch } => {
                let (then_label, else_label, end_label) = match self.next_labels() {
                    Ok(names) => names,
                    Err(error) => {
                        return Err(error);
                    },
                };
                let ghost base = self@;
                let ghost mut code = Seq::<InstructionView>::empty();
                let ghost mut part_cond = Seq::<InstructionView>::empty();
                let ghost mut part_then = Seq::<InstructionView>::empty();
                let ghost mut part_else = Seq::<InstructionView>::empty();
                proof {
                    assert(base.instructions =~= start.instructions);
                    assert(base == extended(base, code, base.temp_count, base.label_count));
                }
                let ghost pre = self@;
                let value = match self.lower_expression(cond) {
                    Ok(value) => value,
                    Err(error) => {
                        proof {
                            let stopped = lowering::lower_expression(cond@, pre.temp_count)->Err_0;
                            let whole = lowering::lower_if(stmt@, scope_of(start))->Err_0;
                            lemma_step(base, code, pre, stopped.code, self@);
                            assert(code + stopped.code =~= whole.code);
                        }
                        return Err(error);
                    },
                };
                proof {
                    part_cond = lowering::lower_expression(cond@, pre.temp_count)->Ok_0.code;
                    lemma_step(base, code, pre, part_cond, self@);
                    code = code + part_cond;
                }
                let ghost pre = self@;
                let instr = Instruction::IfGoto { cond: value, label: then_label.clone() };
                self.emit(instr);
                proof {
                    lemma_step(base, code, pre, seq![instr@], self@);
                    code = code + seq![instr@];
                }
                let ghost pre = self@;
                let instr = Instruction::Goto(else_label.clone());
                self.emit(instr);
                proof {
                    lemma_step(base, code, pre, seq![instr@], self@);
                    code = code + seq![instr@];
                }
                let ghost pre = self@;
                let instr = Instruction::Label(then_label);
                self.emit(instr);
                proof {
                    lemma_step(base, code, pre, seq![instr@], self@);
                    code = code + seq![instr@];
                    assert(code =~= part_cond + seq![
                        InstructionView::IfGoto { cond: value@, label: then_label@ },
                        InstructionView::Goto(else_label@),
                        InstructionView::Label(then_label@),
                    ]);
                }
                let ghost pre = self@;
                match self.lower_statement(then_branch) {
                    Ok(_) => {},
                    Err(error) => {
                        proof {
                            let stopped = lowering::lower_statement(
                                then_branch@,
                                scope_of(pre),
                            )->Err_0;
                            let whole = lowering::lower_if(stmt@, scope_of(start))->Err_0;
                            lemma_step(base, code, pre, stopped.code, self@);
                            assert(code + stopped.code =~= whole.code);
                        }
                        return Err(error);
                    },
                }
                proof {
                    part_then = lowering::lower_statement(then_branch@, scope_of(pre))->Ok_0.code;
                    lemma_step(base, code, pre, part_then, self@);
                    code = code + part_then;
                }
                let ghost pre = self@;
                let instr = Instruction::Goto(end_label.clone());
                self.emit(instr);
                proof {
                    lemma_step(base, code, pre, seq![instr@], self@);
                    code = code + seq![instr@];
                }
                let ghost pre = self@;
                let instr = Instruction::Label(else_label);
                self.emit(instr);
                proof {
                    lemma_step(base, code, pre, seq![instr@], self@);
                    code = code + seq![instr@];
                    assert(code =~= part_cond + seq![
                        InstructionView::IfGoto { cond: value@, label: then_label@ },
                        InstructionView::Goto(else_label@),
                        InstructionView::Label(then_label@),
                    ] + part_then + seq![
                        InstructionView::Goto(end_label@),
                        InstructionView::Label(else_label@),
                    ]);
                }
                match else_branch {
                    Some(other) => {
                        let ghost pre = self@;
                        match self.lower_statement(other) {
                            Ok(_) => {},
                            Err(error) => {
                                proof {
                                    let stopped = lowering::lower_statement(
                                        other@,
                                        scope_of(pre),
                                    )->Err_0;
                                    let whole = lowering::lower_if(stmt@, scope_of(start))->Err_0;
                                    lemma_step(base, code, pre, stopped.code, self@);
                                    assert(code + stopped.code =~= whole.code);
                                }
                                return Err(error);
                            },
                        }
                        proof {
                            part_else = lowering::lower_statement(other@, scope_of(pre))->Ok_0.code;
                            lemma_step(base, code, pre, part_else, self@);
                            code = code + part_else;
                        }
                    },
                    None => {
                        proof {
                            assert(code + part_else =~= code);
                        }
                    },
                }
                let ghost pre = self@;
                let instr = Instruction::Label(end_label);
                self.emit(instr);
                proof {
                    lemma_step(base, code, pre, seq![instr@], self@);
                    code = code + seq![instr@];
                    assert(code =~= part_cond + seq![
                        InstructionView::IfGoto { cond: value@, label: then_label@ },
                        InstructionView::Goto(else_label@),
                        InstructionView::Label(then_label@),
                    ] + part_then + seq![
                        InstructionView::Goto(end_label@),
                        InstructionView::Label(else_label@),
                    ] + part_else + seq![InstructionView::Label(end_label@)]);
                }
                Ok(())
            },
            _ => Ok(()),
        }
    }

    /// Lowers a `while` statement.
    fn lower_while(&mut self, stmt: &Statement) -> (result: Result<(), LowerError>)
        requires
            stmt is While,
        ensures
            lowered_statement(
                old(self)@,
                final(self)@,
                lowering::lower_while(stmt@, scope_of(old(self)@)),
                result,
            ),
        decreases stmt, 0nat,
    {
        reveal(lowering::lower_while);
        reveal(lowering::lower_statement);
        let ghost start = self@;
        proof {
            assert(start.instructions + Seq::empty() =~= start.instructions);
        }
        match stmt {
            Statement::While { cond, body } => {
                let (cond_label, loop_label, end_label) = match self.next_labels() {
                    Ok(names) => names,
                    Err(error) => {
                        return Err(error);
                    },
                };
                self.enter_loop(end_label.clone(), cond_label.clone());
                let ghost base = self@;
                let ghost mut code = Seq::<InstructionView>::empty();
                let ghost mut part_cond = Seq::<InstructionView>::empty();
                let ghost mut part_body = Seq::<InstructionView>::empty();
                proof {
                    assert(base.instructions =~= start.instructions);
                    assert(base == extended(base, code, base.temp_count, base.label_count));
                }
                let ghost pre = self@;
                let instr = Instruction::Goto(cond_label.clone());
                self.emit(instr);
                proof {
                    lemma_step(base, code, pre, seq![instr@], self@);
                    code = code + seq![instr@];
                }
                let ghost pre = self@;
                let instr = Instruction::Label(cond_label.clone());
                self.emit(instr);
                proof {
                    lemma_step(base, code, pre, seq![instr@], self@);
                    code = code + seq![instr@];
                    assert(code =~= seq![
                        InstructionView::Goto(cond_label@),
                        InstructionView::Label(cond_label@),
                    ]);
                }
                let ghost pre = self@;
                let value = match self.lower_expression(cond) {
                    Ok(value) => value,
                    Err(error) => {
                        proof {
                            let stopped = lowering::lower_expression(cond@, pre.temp_count)->Err_0;
                            let whole = lowering::lower_while(stmt@, scope_of(start))->Err_0;
                            lemma_step(base, code, pre, stopped.code, self@);
                            assert(code + stopped.code =~= whole.code);
                        }
                        self.leave_loop();
                        proof {
                            assert(base.loop_stack.drop_last() =~= start.loop_stack);
                        }
                        return Err(error);
                    },
                };
                proof {
                    part_cond = lowering::lower_expression(cond@, pre.temp_count)->Ok_0.code;
                    lemma_step(base, code, pre, part_cond, self@);
                    code = code + part_cond;
                    assert(code =~= seq![
                        InstructionView::Goto(cond_label@),
                        InstructionView::Label(cond_label@),
                    ] + part_cond);
                }
                let ghost pre = self@;
                let instr = Instruction::IfGoto { cond: value, label: loop_label.clone() };
                self.emit(instr);
                proof {
                    lemma_step(base, code, pre, seq![instr@], self@);
                    code = code + seq![instr@];
                }
                let ghost pre = self@;
                let instr = Instruction::Goto(end_label.clone());
                self.emit(instr);
                proof {
                    lemma_step(base, code, pre, seq![instr@], self@);
                    code = code + seq![instr@];
                }
                let ghost pre = self@;
                let instr = Instruction::Label(loop_label);
                self.emit(instr);
                proof {
                    lemma_step(base, code, pre, seq![instr@], self@);
                    code = code + seq![instr@];
                    assert(code =~= seq![
                        InstructionView::Goto(cond_label@),
                        InstructionView::Label(cond_label@),
                    ] + part_cond + seq![
                        InstructionView::IfGoto { cond: value@, label: loop_label@ },
                        InstructionView::Goto(end_label@),
                        InstructionView::Label(loop_label@),
                    ]);
                }
                let ghost pre = self@;
                match self.lower_statement(body) {
                    Ok(_) => {},
                    Err(error) => {
                        proof {
                            let stopped = lowering::lower_statement(body@, scope_of(pre))->Err_0;
                            let whole = lowering::lower_while(stmt@, scope_of(start))->Err_0;
                            lemma_step(base, code, pre, stopped.code, self@);
                            assert(code + stopped.code =~= whole.code);
                        }
                        self.leave_loop();
                        proof {
                            assert(base.loop_stack.drop_last() =~= start.loop_stack);
                        }
                        return Err(error);
                    },
                }
                proof {
                    part_body = lowering::lower_statement(body@, scope_of(pre))->Ok_0.code;
                    lemma_step(base, code, pre, part_body, self@);
                    code = code + part_body;
                }
                let ghost pre = self@;
                let instr = Instruction::Goto(cond_label);
                self.emit(instr);
                proof {
                    lemma_step(base, code, pre, seq![instr@], self@);
                    code = code + seq![instr@];
                }
                let ghost pre = self@;
                let instr = Instruction::Label(end_label);
                self.emit(instr);
                proof {
                    lemma_step(base, code, pre, seq![instr@], self@);
                    code = code + seq![instr@];
                    assert(code =~= seq![
                        InstructionView::Goto(cond_label@),
                        InstructionView::Label(cond_label@),
                    ] + part_cond + seq![
                        InstructionView::IfGoto { cond: value@, label: loop_label@ },
                        InstructionView::Goto(end_label@),
                        InstructionView::Label(loop_label@),
                    ] + part_body + seq![
                        InstructionView::Goto(cond_label@),
                        InstructionView::Label(end_label@),
                    ]);
                }
                self.leave_loop();
                proof {
                    assert(base.loop_stack.drop_last() =~= start.loop_stack);
                }
                Ok(())
            },
            _ => Ok(()),
        }
    }

    /// Lowers a `for` statement.
    fn lower_for(&mut self, stmt: &Statement) -> (result: Result<(), LowerError>)
        requires
            stmt is For,
        ensures
            lowered_statement(
                old(self)@,
                final(self)@,
                lowering::lower_for(stmt@, scope_of(old(self)@)),
                result,
            ),
        decreases stmt, 0nat,
    {
        reveal(lowering::lower_for);
        reveal(lowering::lower_statement);
        let ghost start = self@;
        proof {
            assert(start.instructions + Seq::empty() =~= start.instructions);
        }
        match stmt {
            Statement::For { init, cond, inc, body } => {
                if self.label_count > usize::MAX - 4 {
                    return Err(LowerError::TooManyLabels);
                }
                let (cond_label, loop_label, inc_label) = match self.next_labels() {
                    Ok(names) => names,
                    Err(error) => {
                        return Err(error);
                    },
                };
                let end_label = match self.next_label() {
                    Ok(name) => name,
                    Err(error) => {
                        return Err(error);
                    },
                };
                self.enter_loop(end_label.clone(), inc_label.clone());
                let ghost base = self@;
                let ghost mut code = Seq::<InstructionView>::empty();
                let ghost mut part_init = Seq::<InstructionView>::empty();
                let ghost mut part_cond = Seq::<InstructionView>::empty();
                let ghost mut part_body = Seq::<InstructionView>::empty();
                let ghost mut part_inc = Seq::<InstructionView>::empty();
                proof {
                    assert(base.instructions =~= start.instructions);
                    assert(base == extended(base, code, base.temp_count, base.label_count));
                }
                let ghost pre = self@;
                match self.lower_inner_declaration(init) {
                    Ok(_) => {},
                    Err(error) => {
                        proof {
                            let stopped = lowering::lower_inner_declaration(
                                init@,
                                scope_of(pre),
                            )->Err_0;
                            let whole = lowering::lower_for(stmt@, scope_of(start))->Err_0;
                            lemma_step(base, code, pre, stopped.code, self@);
                            assert(code + stopped.code =~= whole.code);
                        }
                        self.leave_loop();
                        proof {
                            assert(base.loop_stack.drop_last() =~= start.loop_stack);
                        }
                        return Err(error);
                    },
                }
                proof {
                    part_init = lowering::lower_inner_declaration(init@, scope_of(pre))->Ok_0.code;
                    lemma_step(base, code, pre, part_init, self@);
                    code = code + part_init;
                }
                let ghost pre = self@;
                let instr = Instruction::Goto(cond_label.clone());
                self.emit(instr);
                proof {
                    lemma_step(base, code, pre, seq![instr@], self@);
                    code = code + seq![instr@];
                }
                let ghost pre = self@;
                let instr = Instruction::Label(cond_label.clone());
                self.emit(instr);
                proof {
                    lemma_step(base, code, pre, seq![instr@], self@);
                    code = code + seq![instr@];
                    assert(code =~= part_init + seq![
                        InstructionView::Goto(cond_label@),
                        InstructionView::Label(cond_label@),
                    ]);
                }
                let ghost pre = self@;
                let value = match self.lower_expression(cond) {
                    Ok(value) => value,
                    Err(error) => {
                        proof {
                            let stopped = lowering::lower_expression(cond@, pre.temp_count)->Err_0;
                            let whole = lowering::lower_for(stmt@, scope_of(start))->Err_0;
                            lemma_step(base, code, pre, stopped.code, self@);
                            assert(code + stopped.code =~= whole.code);
                        }
                        self.leave_loop();
                        proof {
                            assert(base.loop_stack.drop_last() =~= start.loop_stack);
                        }
                        return Err(error);
                    },
                };
                proof {
                    part_cond = lowering::lower_expression(cond@, pre.temp_count)->Ok_0.code;
                    lemma_step(base, code, pre, part_cond, self@);
                    code = code + part_cond;
                }
                let ghost pre = self@;
                let instr = Instruction::IfGoto { cond: value, label: loop_label.clone() };
                self.emit(instr);
                proof {
                    lemma_step(base, code, pre, seq![instr@], self@);
                    code = code + seq![instr@];
                }
                let ghost pre = self@;
                let instr = Instruction::Goto(end_label.clone());
                self.emit(instr);
                proof {
                    lemma_step(base, code, pre, seq![instr@], self@);
                    code = code + seq![instr@];
                }
                let ghost pre = self@;
                let instr = Instruction::Label(loop_label);
                self.emit(instr);
                proof {
                    lemma_step(base, code, pre, seq![instr@], self@);
                    code = code + seq![instr@];
                    assert(code =~= part_init + seq![
                        InstructionView::Goto(cond_label@),
                        InstructionView::Label(cond_label@),
                    ] + part_cond + seq![
                        InstructionView::IfGoto { cond: value@, label: loop_label@ },
                        InstructionView::Goto(end_label@),
                        InstructionView::Label(loop_label@),
                    ]);
                }
                let ghost pre = self@;
                match self.lower_statement(body) {
                    Ok(_) => {},
                    Err(error) => {
                        proof {
                            let stopped = lowering::lower_statement(body@, scope_of(pre))->Err_0;
                            let whole = lowering::lower_for(stmt@, scope_of(start))->Err_0;
                            lemma_step(base, code, pre, stopped.code, self@);
                            assert(code + stopped.code =~= whole.code);
                        }
                        self.leave_loop();
                        proof {
                            assert(base.loop_stack.drop_last() =~= start.loop_stack);
                        }
                        return Err(error);
                    },
                }
                proof {
                    part_body = lowering::lower_statement(body@, scope_of(pre))->Ok_0.code;
                    lemma_step(base, code, pre, part_body, self@);
                    code = code + part_body;
                }
                let ghost pre = self@;
                let instr = Instruction::Label(inc_label);
                self.emit(instr);
                proof {
                    lemma_step(base, code, pre, seq![instr@], self@);
                    code = code + seq![instr@];
                    assert(code =~= part_init + seq![
                        InstructionView::Goto(cond_label@),
                        InstructionView::Label(cond_label@),
                    ] + part_cond + seq![
                        InstructionView::IfGoto { cond: value@, label: loop_label@ },
                        InstructionView::Goto(end_label@),
                        InstructionView::Label(loop_label@),
                    ] + part_body + seq![InstructionView::Label(inc_label@)]);
                }
                let ghost pre = self@;
                match self.lower_expression(inc) {
                    Ok(_) => {},
                    Err(error) => {
                        proof {
                            let stopped = lowering::lower_expression(inc@, pre.temp_count)->Err_0;
                            let whole = lowering::lower_for(stmt@, scope_of(start))->Err_0;
                            lemma_step(base, code, pre, stopped.code, self@);
                            assert(code + stopped.code =~= whole.code);
                        }
                        self.leave_loop();
                        proof {
                            assert(base.loop_stack.drop_last() =~= start.loop_stack);
                        }
                        return Err(error);
                    },
                }
                proof {
                    part_inc = lowering::lower_expression(inc@, pre.temp_count)->Ok_0.code;
                    lemma_step(base, code, pre, part_inc, self@);
                    code = code + part_inc;
                }
                let ghost pre = self@;
                let instr = Instruction::Goto(cond_label);
                self.emit(instr);
                proof {
                    lemma_step(base, code, pre, seq![instr@], self@);
                    code = code + seq![instr@];
                }
                let ghost pre = self@;
                let instr = Instruction::Label(end_label);
                self.emit(instr);
                proof {
                    lemma_step(base, code, pre, seq![instr@], self@);
                    code = code + seq![instr@];
                    assert(code =~= part_init + seq![
                        InstructionView::Goto(cond_label@),
                        InstructionView::Label(cond_label@),
                    ] + part_cond + seq![
                        InstructionView::IfGoto { cond: value@, label: loop_label@ },
                        InstructionView::Goto(end_label@),
                        InstructionView::Label(loop_label@),
                    ] + part_body + seq![InstructionView::Label(inc_label@)] + part_inc + seq![
                        InstructionView::Goto(cond_label@),
                        InstructionView::Label(end_label@),
                    ]);
                }
                self.leave_loop();
                proof {
                    assert(base.loop_stack.drop_last() =~= start.loop_stack);
                }
                Ok(())
            },
            _ => Ok(()),
        }
    }

    /// Lowers a top-level declaration and adds it to the module.
    ///
    /// A function starts with no temporaries, no instructions and no
    /// enclosing loop. On failure nothing is added to the module, and the
    /// lowerer holds what was lowered up to the failure.
    pub fn lower_declaration(&mut self, decl: &Declaration) -> (result: Result<(), LowerError>)
        ensures
            match lowering::lower_declaration(decl@, old(self)@) {
                Ok(state) => result is Ok && final(self)@ == state,
                Err((error, state)) => result == Err::<(), LowerError>(error) && final(self)@
                    == state,
            },
            final(self)@.label_count >= old(self)@.label_count,
            sound(old(self)@) ==> sound(final(self)@),
    {
        let ghost start = self@;
        proof {
            if sound(start) {
                lemma_declaration_keeps_sound(decl@, start);
                lemma_more_labels_keep_sound(start);
            }
        }
        match decl {
            Declaration::Function { name, ret_type, params, body } => {
                self.clear_state();
                let ghost cleared = self@;
                match self.lower_statement(body) {
                    Ok(_) => {},
                    Err(error) => {
                        proof {
                            let stopped = lowering::lower_statement(
                                body@,
                                scope_of(cleared),
                            )->Err_0;
                            assert(self@.instructions =~= stopped.code);
                        }
                        return Err(error);
                    },
                }
                let ghost lowered = self@;
                let function = Fun {
                    name: name.clone(),
                    ret_type: *ret_type,
                    params: copy_parameters(params),
                    body: copy_instructions(&self.instructions),
                };
                self.functions.push(function);
                proof {
                    let b = lowering::lower_statement(body@, scope_of(cleared))->Ok_0;
                    assert(lowered.instructions =~= b.code);
                    assert(self@.functions =~= start.functions.push(function@));
                }
                Ok(())
            },
            Declaration::InitVariable { name, var_type, init } => {
                let value = match self.lower_expression(init) {
                    Ok(value) => value,
                    Err(error) => {
                        return Err(error);
                    },
                };
                let global = Glob { name: name.clone(), var_type: *var_type, init: value };
                self.globals.push(global);
                proof {
                    assert(self@.globals =~= start.globals.push(global@));
                }
                Ok(())
            },
        }
    }

    /// Lowers a whole program and returns the module, which holds what
    /// this lowerer had lowered before, and then the program's globals and
    /// functions in the order of their declarations.
    ///
    /// Where the lowerer was sound, as a new one is, so is the module: in
    /// each function a temporary is written by one instruction and read
    /// only by later ones, and the label that a jump names is defined by
    /// exactly one instruction; and no label is defined in two functions.
    /// On failure no module is returned, and the lowerer holds what was
    /// lowered up to the failure.
    pub fn lower_program(&mut self, program: &Program) -> (result: Result<Module, LowerError>)
        ensures
            match lowering::lower_declarations(program@.items, old(self)@) {
                Ok(state) => result matches Ok(module) && final(self)@ == state && module@ == (
                ModuleView { globals: state.globals, functions: state.functions }),
                Err((error, state)) => result == Err::<Module, LowerError>(error) && final(self)@
                    == state,
            },
            sound(old(self)@) ==> sound(final(self)@),
            sound(old(self)@) ==> (result matches Ok(module) ==> all_well_formed(
                module@.functions,
            ) && no_label_is_shared(module@.functions)),
    {
        let ghost start = self@;
        let ghost all = program@.items;
        proof {
            assert(all.take(0) =~= Seq::empty());
        }
        let mut i: usize = 0;
        while i < program.items.len()
            invariant
                i <= program.items.len(),
                all == declaration_views(program.items@),
                start == old(self)@,
                lowering::lower_declarations(all.take(i as int), start) == Ok::<
                    LowererView,
                    (LowerError, LowererView),
                >(self@),
                sound(start) ==> sound(self@),
            decreases program.items.len() - i,
        {
            proof {
                assert(all.take(i + 1).drop_last() =~= all.take(i as int));
                assert(all.take(i + 1).last() == program.items[i as int]@);
            }
            match self.lower_declaration(&program.items[i]) {
                Ok(_) => {},
                Err(error) => {
                    proof {
                        lowering::lemma_lower_declarations_stops(all, i + 1, start);
                    }
                    return Err(error);
                },
            }
            i += 1;
        }
        proof {
            assert(all.take(program.items.len() as int) =~= all);
        }
        Ok(
            Module {
                globals: copy_globals(&self.globals),
                functions: copy_functions(&self.functions),
            },
        )
    }

    /// Enters a loop whose `break` jumps to `break_label` and whose
    /// `continue` jumps to `continue_label`.
    fn enter_loop(&mut self, break_label: String, continue_label: String)
        ensures
            final(self)@ == (LowererView {
                loop_stack: old(self)@.loop_stack.push(
                    LoopContextView {
                        break_label: break_label@,
                        continue_label: continue_label@,
                    },
                ),
                ..old(self)@
            }),
    {
        self.loop_stack.push(LoopContext { break_label, continue_label });
        proof {
            assert(self@.loop_stack =~= old(self)@.loop_stack.push(
                LoopContextView { break_label: break_label@, continue_label: continue_label@ },
            ));
        }
    }

    /// Leaves the innermost loop.
    fn leave_loop(&mut self)
        requires
            old(self)@.loop_stack.len() > 0,
        ensures
            final(self)@ == (LowererView {
                loop_stack: old(self)@.loop_stack.drop_last(),
                ..old(self)@
            }),
    {
        self.loop_stack.pop();
        proof {
            assert(self@.loop_stack =~= old(self)@.loop_stack.drop_last());
        }
    }
}

} // verus!
