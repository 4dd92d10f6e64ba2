//! The intermediate representation: flat three-address code with labels
//! and jumps, which the lowerer produces.

use vstd::prelude::*;
use crate::ast::{parameter_views, BinaryOp, Parameter, ParameterView, Type, UnaryOp};

verus! {

/// Where an operand or a result lives.
#[derive(Debug, PartialEq, Eq)]
pub enum Value {
    /// A temporary, numbered within its function.
    Temp(usize),
    /// A variable of the source program.
    Var(String),
    /// A constant.
    Const(i32),
}

/// One instruction.
#[derive(Debug, PartialEq, Eq)]
#[allow(inconsistent_fields)]
pub enum Instruction {
    /// Copies the second value into the first.
    Assign(Value, Value),
    Unary { dest: Value, operator: UnaryOp, oper: Value },
    Binary { dest: Value, operator: BinaryOp, left_oper: Value, right_oper: Value },
    Call { dest: Value, name: String, args: Vec<Value> },
    Label(String),
    Goto(String),
    /// Jumps to the label where the condition is not zero, and falls
    /// through where it is.
    IfGoto { cond: Value, label: String },
    Return(Option<Value>),
}

/// A global variable with the value that it starts with.
#[derive(Debug, PartialEq, Eq)]
pub struct Glob {
    pub name: String,
    pub var_type: Type,
    pub init: Value,
}

/// A function with its instructions.
#[derive(Debug, PartialEq, Eq)]
pub struct Fun {
    pub name: String,
    pub ret_type: Type,
    pub params: Vec<Parameter>,
    pub body: Vec<Instruction>,
}

/// A lowered program.
#[derive(Debug, PartialEq, Eq)]
pub struct Module {
    pub globals: Vec<Glob>,
    pub functions: Vec<Fun>,
}

/// The mathematical value of a [`Value`].
pub enum ValueView {
    Temp(nat),
    Var(Seq<char>),
    Const(i32),
}

/// The mathematical value of an [`Instruction`].
#[allow(inconsistent_fields)]
pub enum InstructionView {
    Assign(ValueView, ValueView),
    Unary { dest: ValueView, operator: UnaryOp, oper: ValueView },
    Binary { dest: ValueView, operator: BinaryOp, left_oper: ValueView, right_oper: ValueView },
    Call { dest: ValueView, name: Seq<char>, args: Seq<ValueView> },
    Label(Seq<char>),
    Goto(Seq<char>),
    IfGoto { cond: ValueView, label: Seq<char> },
    Return(Option<ValueView>),
}

/// The mathematical value of a [`Glob`].
pub struct GlobView {
    pub name: Seq<char>,
    pub var_type: Type,
    pub init: ValueView,
}

/// The mathematical value of a [`Fun`].
pub struct FunView {
    pub name: Seq<char>,
    pub ret_type: Type,
    pub params: Seq<ParameterView>,
    pub body: Seq<InstructionView>,
}

/// The mathematical value of a [`Module`].
pub struct ModuleView {
    pub globals: Seq<GlobView>,
    pub functions: Seq<FunView>,
}

impl View for Value {
    type V = ValueView;

    open spec fn view(&self) -> ValueView {
        match self {
            Value::Temp(n) => ValueView::Temp(*n as nat),
            Value::Var(name) => ValueView::Var(name@),
            Value::Const(n) => ValueView::Const(*n),
        }
    }
}

/// The values of a sequence of values, one for one.
pub open spec fn value_views(values: Seq<Value>) -> Seq<ValueView> {
    Seq::new(values.len(), |i: int| values[i]@)
}

impl View for Instruction {
    type V = InstructionView;

    open spec fn view(&self) -> InstructionView {
        match self {
            Instruction::Assign(dest, src) => InstructionView::Assign(dest@, src@),
            Instruction::Unary { dest, operator, oper } => InstructionView::Unary {
                dest: dest@,
                operator: *operator,
                oper: oper@,
            },
            Instruction::Binary { dest, operator, left_oper, right_oper } => {
                InstructionView::Binary {
                    dest: dest@,
                    operator: *operator,
                    left_oper: left_oper@,
                    right_oper: right_oper@,
                }
            },
            Instruction::Call { dest, name, args } => InstructionView::Call {
                dest: dest@,
                name: name@,
                args: value_views(args@),
            },
            Instruction::Label(name) => InstructionView::Label(name@),
            Instruction::Goto(name) => InstructionView::Goto(name@),
            Instruction::IfGoto { cond, label } => InstructionView::IfGoto {
                cond: cond@,
                label: label@,
            },
            Instruction::Return(value) => InstructionView::Return(
                match value {
                    Some(v) => Some(v@),
                    None => None,
                },
            ),
        }
    }
}

/// The values of a sequence of instructions, one for one.
pub open spec fn instruction_views(code: Seq<Instruction>) -> Seq<InstructionView> {
    Seq::new(code.len(), |i: int| code[i]@)
}

impl View for Glob {
    type V = GlobView;

    open spec fn view(&self) -> GlobView {
        GlobView { name: self.name@, var_type: self.var_type, init: self.init@ }
    }
}

/// The values of a sequence of globals, one for one.
pub open spec fn glob_views(globals: Seq<Glob>) -> Seq<GlobView> {
    Seq::new(globals.len(), |i: int| globals[i]@)
}

impl View for Fun {
    type V = FunView;

    open spec fn view(&self) -> FunView {
        FunView {
            name: self.name@,
            ret_type: self.ret_type,
            params: parameter_views(self.params@),
            body: instruction_views(self.body@),
        }
    }
}

/// The values of a sequence of functions, one for one.
pub open spec fn fun_views(functions: Seq<Fun>) -> Seq<FunView> {
    Seq::new(functions.len(), |i: int| functions[i]@)
}

impl View for Module {
    type V = ModuleView;

    open spec fn view(&self) -> ModuleView {
        ModuleView { globals: glob_views(self.globals@), functions: fun_views(self.functions@) }
    }
}

impl Clone for Value {
    fn clone(&self) -> (copy: Self)
        ensures
            copy@ == self@,
    {
        match self {
            Value::Temp(n) => Value::Temp(*n),
            Value::Var(name) => Value::Var(name.clone()),
            Value::Const(n) => Value::Const(*n),
        }
    }
}

/// A copy of a vector of values.
pub fn copy_values(values: &Vec<Value>) -> (copy: Vec<Value>)
    ensures
        value_views(copy@) == value_views(values@),
{
    let mut copy: Vec<Value> = Vec::new();
    let mut i: usize = 0;
    while i < values.len()
        invariant
            i <= values.len(),
            copy.len() == i,
            forall|k: int| 0 <= k < i ==> copy[k]@ == values[k]@,
        decreases values.len() - i,
    {
        copy.push(values[i].clone());
        i += 1;
    }
    assert(value_views(copy@) =~= value_views(values@));
    copy
}

impl Clone for Instruction {
    fn clone(&self) -> (copy: Self)
        ensures
            copy@ == self@,
    {
        match self {
            Instruction::Assign(dest, src) => Instruction::Assign(dest.clone(), src.clone()),
            Instruction::Unary { dest, operator, oper } => Instruction::Unary {
                dest: dest.clone(),
                operator: *operator,
                oper: oper.clone(),
            },
            Instruction::Binary { dest, operator, left_oper, right_oper } => Instruction::Binary {
                dest: dest.clone(),
                operator: *operator,
                left_oper: left_oper.clone(),
                right_oper: right_oper.clone(),
            },
            Instruction::Call { dest, name, args } => Instruction::Call {
                dest: dest.clone(),
                name: name.clone(),
                args: copy_values(args),
            },
            Instruction::Label(name) => Instruction::Label(name.clone()),
            Instruction::Goto(name) => Instruction::Goto(name.clone()),
            Instruction::IfGoto { cond, label } => Instruction::IfGoto {
                cond: cond.clone(),
                label: label.clone(),
            },
            Instruction::Return(value) => Instruction::Return(
                match value {
                    Some(v) => Some(v.clone()),
                    None => None,
                },
            ),
        }
    }
}

/// A copy of a vector of instructions.
pub fn copy_instructions(code: &Vec<Instruction>) -> (copy: Vec<Instruction>)
    ensures
        instruction_views(copy@) == instruction_views(code@),
{
    let mut copy: Vec<Instruction> = Vec::new();
    let mut i: usize = 0;
    while i < code.len()
        invariant
            i <= code.len(),
            copy.len() == i,
            forall|k: int| 0 <= k < i ==> copy[k]@ == code[k]@,
        decreases code.len() - i,
    {
        copy.push(code[i].clone());
        i += 1;
    }
    assert(instruction_views(copy@) =~= instruction_views(code@));
    copy
}

/// A copy of a vector of parameters.
pub fn copy_parameters(params: &Vec<Parameter>) -> (copy: Vec<Parameter>)
    ensures
        parameter_views(copy@) == parameter_views(params@),
{
    let mut copy: Vec<Parameter> = Vec::new();
    let mut i: usize = 0;
    while i < params.len()
        invariant
            i <= params.len(),
            copy.len() == i,
            forall|k: int| 0 <= k < i ==> copy[k]@ == params[k]@,
        decreases params.len() - i,
    {
        copy.push(params[i].clone());
        i += 1;
    }
    assert(parameter_views(copy@) =~= parameter_views(params@));
    copy
}

impl Clone for Glob {
    fn clone(&self) -> (copy: Self)
        ensures
            copy@ == self@,
    {
        Glob { name: self.name.clone(), var_type: self.var_type, init: self.init.clone() }
    }
}

impl Clone for Fun {
    fn clone(&self) -> (copy: Self)
        ensures
            copy@ == self@,
    {
        Fun {
            name: self.name.clone(),
            ret_type: self.ret_type,
            params: copy_parameters(&self.params),
            body: copy_instructions(&self.body),
        }
    }
}

/// A copy of a vector of globals.
pub fn copy_globals(globals: &Vec<Glob>) -> (copy: Vec<Glob>)
    ensures
        glob_views(copy@) == glob_views(globals@),
{
    let mut copy: Vec<Glob> = Vec::new();
    let mut i: usize = 0;
    while i < globals.len()
        invariant
            i <= globals.len(),
            copy.len() == i,
            forall|k: int| 0 <= k < i ==> copy[k]@ == globals[k]@,
        decreases globals.len() - i,
    {
        copy.push(globals[i].clone());
        i += 1;
    }
    assert(glob_views(copy@) =~= glob_views(globals@));
    copy
}

/// A copy of a vector of functions.
pub fn copy_functions(functions: &Vec<Fun>) -> (copy: Vec<Fun>)
    ensures
        fun_views(copy@) == fun_views(functions@),
{
    let mut copy: Vec<Fun> = Vec::new();
    let mut i: usize = 0;
    while i < functions.len()
        invariant
            i <= functions.len(),
            copy.len() == i,
            forall|k: int| 0 <= k < i ==> copy[k]@ == functions[k]@,
        decreases functions.len() - i,
    {
        copy.push(functions[i].clone());
        i += 1;
    }
    assert(fun_views(copy@) =~= fun_views(functions@));
    copy
}

impl Clone for Module {
    fn clone(&self) -> (copy: Self)
        ensures
            copy@ == self@,
    {
        Module { globals: copy_globals(&self.globals), functions: copy_functions(&self.functions) }
    }
}

} // verus!
