//! The stack-machine IR that inference works on.

use vstd::prelude::*;
use crate::errors::{ErrorKind, Span};
use crate::types::Type;

verus! {

/// The relation a comparison instruction tests.
#[derive(Debug, Clone, Copy, PartialEq, Eq, Structural)]
pub enum CompareType {
    Equal,
    NotEqual,
    Less,
    LessEqual,
    Greater,
    GreaterEqual,
}

/// An opcode of the stack machine.
///
/// The flag on the arithmetic opcodes selects wrapping arithmetic; inference
/// does not look at it, nor at `Push`'s literal text or the jump targets.
#[derive(Debug)]
pub enum InstructionType {
    Push(String),
    Load(String),
    Store(String),
    StoreIndexed(String),
    Allocate(String),
    Index,
    Branch(usize, usize),
    Jump(usize),
    Label(usize),
    Call(String),
    Return,
    Negate(bool),
    Add(bool),
    Subtract(bool),
    Multiply(bool),
    IntDivide,
    Divide,
    Compare(CompareType),
}

/// The mathematical model of an opcode: names are sequences of characters.
pub enum SpecInstructionType {
    Push(Seq<char>),
    Load(Seq<char>),
    Store(Seq<char>),
    StoreIndexed(Seq<char>),
    Allocate(Seq<char>),
    Index,
    Branch(usize, usize),
    Jump(usize),
    Label(usize),
    Call(Seq<char>),
    Return,
    Negate(bool),
    Add(bool),
    Subtract(bool),
    Multiply(bool),
    IntDivide,
    Divide,
    Compare(CompareType),
}

impl DeepView for InstructionType {
    type V = SpecInstructionType;

    open spec fn deep_view(&self) -> SpecInstructionType {
        match *self {
            InstructionType::Push(s) => SpecInstructionType::Push(s@),
            InstructionType::Load(s) => SpecInstructionType::Load(s@),
            InstructionType::Store(s) => SpecInstructionType::Store(s@),
            InstructionType::StoreIndexed(s) => SpecInstructionType::StoreIndexed(s@),
            InstructionType::Allocate(s) => SpecInstructionType::Allocate(s@),
            InstructionType::Index => SpecInstructionType::Index,
            InstructionType::Branch(a, b) => SpecInstructionType::Branch(a, b),
            InstructionType::Jump(a) => SpecInstructionType::Jump(a),
            InstructionType::Label(a) => SpecInstructionType::Label(a),
            InstructionType::Call(s) => SpecInstructionType::Call(s@),
            InstructionType::Return => SpecInstructionType::Return,
            InstructionType::Negate(w) => SpecInstructionType::Negate(w),
            InstructionType::Add(w) => SpecInstructionType::Add(w),
            InstructionType::Subtract(w) => SpecInstructionType::Subtract(w),
            InstructionType::Multiply(w) => SpecInstructionType::Multiply(w),
            InstructionType::IntDivide => SpecInstructionType::IntDivide,
            InstructionType::Divide => SpecInstructionType::Divide,
            InstructionType::Compare(c) => SpecInstructionType::Compare(c),
        }
    }
}

impl Clone for InstructionType {
    fn clone(&self) -> (r: InstructionType)
        ensures
            r.deep_view() == self.deep_view(),
    {
        match self {
            InstructionType::Push(s) => InstructionType::Push(s.clone()),
            InstructionType::Load(s) => InstructionType::Load(s.clone()),
            InstructionType::Store(s) => InstructionType::Store(s.clone()),
            InstructionType::StoreIndexed(s) => InstructionType::StoreIndexed(s.clone()),
            InstructionType::Allocate(s) => InstructionType::Allocate(s.clone()),
            InstructionType::Index => InstructionType::Index,
            InstructionType::Branch(a, b) => InstructionType::Branch(*a, *b),
            InstructionType::Jump(a) => InstructionType::Jump(*a),
            InstructionType::Label(a) => InstructionType::Label(*a),
            InstructionType::Call(s) => InstructionType::Call(s.clone()),
            InstructionType::Return => InstructionType::Return,
            InstructionType::Negate(w) => InstructionType::Negate(*w),
            InstructionType::Add(w) => InstructionType::Add(*w),
            InstructionType::Subtract(w) => InstructionType::Subtract(*w),
            InstructionType::Multiply(w) => InstructionType::Multiply(*w),
            InstructionType::IntDivide => InstructionType::IntDivide,
            InstructionType::Divide => InstructionType::Divide,
            InstructionType::Compare(c) => InstructionType::Compare(*c),
        }
    }
}

/// An opcode together with its result type slot, the term that constraints
/// attach to.
#[derive(Debug)]
pub struct Instruction {
    pub ins: InstructionType,
    pub typ: Type,
}

/// The model of an instruction.
pub struct SpecInstruction {
    pub ins: SpecInstructionType,
    pub typ: Type,
}

impl DeepView for Instruction {
    type V = SpecInstruction;

    open spec fn deep_view(&self) -> SpecInstruction {
        SpecInstruction { ins: self.ins.deep_view(), typ: self.typ }
    }
}

impl Clone for Instruction {
    fn clone(&self) -> (r: Instruction)
        ensures
            r.deep_view() == self.deep_view(),
    {
        Instruction { ins: self.ins.clone(), typ: self.typ.clone() }
    }
}

/// A procedure of the IR.
#[derive(Debug)]
pub struct IRProc {
    pub name: String,
    pub args: Vec<String>,
    pub arg_types: Vec<Type>,
    pub ret_type: Type,
    pub body: Vec<Span<Instruction>>,
}

/// The model of a procedure.
pub struct SpecProc {
    pub name: Seq<char>,
    pub args: Seq<Seq<char>>,
    pub arg_types: Seq<Type>,
    pub ret_type: Type,
    pub body: Seq<Span<SpecInstruction>>,
}

impl SpecProc {
    /// Argument names and argument types are aligned.
    pub open spec fn well_formed(self) -> bool {
        self.args.len() == self.arg_types.len()
    }
}

impl DeepView for IRProc {
    type V = SpecProc;

    open spec fn deep_view(&self) -> SpecProc {
        SpecProc {
            name: self.name@,
            args: self.args.deep_view(),
            arg_types: self.arg_types@,
            ret_type: self.ret_type,
            body: self.body.deep_view(),
        }
    }
}

/// A copy of a list of names.
pub fn clone_names(names: &Vec<String>) -> (copy: Vec<String>)
    ensures
        copy.deep_view() == names.deep_view(),
{
    let mut copy: Vec<String> = Vec::new();
    let mut i: usize = 0;
    while i < names.len()
        invariant
            i <= names.len(),
            copy.len() == i,
            forall|k: int| 0 <= k < i ==> (#[trigger] copy[k])@ == names[k]@,
        decreases names.len() - i,
    {
        copy.push(names[i].clone());
        i += 1;
    }
    assert(copy.deep_view() =~= names.deep_view());
    copy
}

/// A copy of a list of type terms.
pub fn clone_types(types: &Vec<Type>) -> (copy: Vec<Type>)
    ensures
        copy@ == types@,
{
    let mut copy: Vec<Type> = Vec::new();
    let mut i: usize = 0;
    while i < types.len()
        invariant
            i <= types.len(),
            copy@ == types@.take(i as int),
        decreases types.len() - i,
    {
        copy.push(types[i].clone());
        i += 1;
    }
    copy
}

/// A copy of a procedure body.
pub fn clone_body(body: &Vec<Span<Instruction>>) -> (copy: Vec<Span<Instruction>>)
    ensures
        copy.deep_view() == body.deep_view(),
{
    let mut copy: Vec<Span<Instruction>> = Vec::new();
    let mut i: usize = 0;
    while i < body.len()
        invariant
            i <= body.len(),
            copy.len() == i,
            forall|k: int| 0 <= k < i ==> (#[trigger] copy[k]).deep_view() == body[k].deep_view(),
        decreases body.len() - i,
    {
        let ins = &body[i];
        copy.push(Span { contents: ins.contents.clone(), pos: ins.pos, len: ins.len });
        i += 1;
    }
    assert(copy.deep_view() =~= body.deep_view());
    copy
}

impl Clone for IRProc {
    fn clone(&self) -> (r: IRProc)
        ensures
            r.deep_view() == self.deep_view(),
    {
        IRProc {
            name: self.name.clone(),
            args: clone_names(&self.args),
            arg_types: clone_types(&self.arg_types),
            ret_type: self.ret_type.clone(),
            body: clone_body(&self.body),
        }
    }
}

impl IRProc {
    /// Whether argument names and argument types are aligned.
    pub fn is_well_formed(&self) -> (r: bool)
        ensures
            r == self.deep_view().well_formed(),
    {
        self.args.len() == self.arg_types.len()
    }
}

/// The index of the first procedure from `from` on that is called `name`.
pub open spec fn find_proc(procs: Seq<SpecProc>, name: Seq<char>, from: int) -> Option<int>
    decreases procs.len() - from,
{
    if from < 0 || from >= procs.len() {
        None
    } else if procs[from].name == name {
        Some(from)
    } else {
        find_proc(procs, name, from + 1)
    }
}

/// The procedure that a call of `name` reaches: the first one declared under
/// that name.
pub open spec fn spec_locate_proc(procs: Seq<SpecProc>, name: Seq<char>) -> Option<SpecProc> {
    match find_proc(procs, name, 0) {
        Some(index) => Some(procs[index]),
        None => None,
    }
}

/// What a lookup finds is the first procedure of that name; it finds
/// nothing only where no procedure has the name.
pub proof fn lemma_locate_proc_finds_first(procs: Seq<SpecProc>, name: Seq<char>)
    ensures
        match find_proc(procs, name, 0) {
            Some(index) => 0 <= index < procs.len() && procs[index].name == name && forall|k: int|
                0 <= k < index ==> (#[trigger] procs[k]).name != name,
            None => forall|k: int| 0 <= k < procs.len() ==> (#[trigger] procs[k]).name != name,
        },
{
    lemma_find_proc_from(procs, name, 0);
}

proof fn lemma_find_proc_from(procs: Seq<SpecProc>, name: Seq<char>, from: int)
    requires
        0 <= from,
    ensures
        match find_proc(procs, name, from) {
            Some(index) => from <= index < procs.len() && procs[index].name == name
                && forall|k: int| from <= k < index ==> (#[trigger] procs[k]).name != name,
            None => forall|k: int| from <= k < procs.len() ==> (#[trigger] procs[k]).name != name,
        },
    decreases procs.len() - from,
{
    if from < procs.len() && procs[from].name != name {
        lemma_find_proc_from(procs, name, from + 1);
    }
}

/// Every procedure of the table has as many argument types as arguments.
pub open spec fn all_well_formed(procs: Seq<SpecProc>) -> bool {
    forall|i: int| 0 <= i < procs.len() ==> (#[trigger] procs[i]).well_formed()
}

/// A program in IR form: the procedure table that inference reads and, once
/// it has succeeded, replaces.
#[derive(Debug)]
pub struct IRBuilder {
    pub procs: Vec<IRProc>,
}

impl IRBuilder {
    /// A builder over the given procedures, in declaration order.
    pub fn new(procs: Vec<IRProc>) -> (builder: IRBuilder)
        ensures
            builder.procs == procs,
    {
        IRBuilder { procs }
    }

    /// Where in the table the procedure called `name` stands.
    pub fn proc_index(&self, name: &String) -> (found: Option<usize>)
        ensures
            match find_proc(self.procs.deep_view(), name@, 0) {
                Some(index) => 0 <= index < self.procs.len() && found == Some(index as usize),
                None => found is None,
            },
    {
        let ghost table = self.procs.deep_view();
        let mut i: usize = 0;
        while i < self.procs.len()
            invariant
                i <= self.procs.len(),
                table == self.procs.deep_view(),
                find_proc(table, name@, 0) == find_proc(table, name@, i as int),
            decreases self.procs.len() - i,
        {
            assert(table[i as int].name == self.procs[i as int].name@);
            if self.procs[i].name == *name {
                return Some(i);
            }
            i += 1;
        }
        None
    }

    /// Looks `name` up in the procedure table.
    pub fn locate_proc(&self, name: &String) -> (found: Result<&IRProc, ErrorKind>)
        ensures
            match spec_locate_proc(self.procs.deep_view(), name@) {
                Some(callee) => found is Ok && found->Ok_0.deep_view() == callee,
                None => found == Err::<&IRProc, ErrorKind>(ErrorKind::UnknownProcedure),
            },
    {
        match self.proc_index(name) {
            Some(index) => Ok(&self.procs[index]),
            None => Err(ErrorKind::UnknownProcedure),
        }
    }

    /// Whether every procedure of the table has aligned arguments.
    pub fn is_well_formed(&self) -> (r: bool)
        ensures
            r == all_well_formed(self.procs.deep_view()),
    {
        let ghost table = self.procs.deep_view();
        let mut i: usize = 0;
        while i < self.procs.len()
            invariant
                i <= self.procs.len(),
                table == self.procs.deep_view(),
                forall|k: int| 0 <= k < i ==> (#[trigger] table[k]).well_formed(),
            decreases self.procs.len() - i,
        {
            assert(table[i as int] == self.procs[i as int].deep_view());
            if !self.procs[i].is_well_formed() {
                return false;
            }
            i += 1;
        }
        true
    }
}

} // verus!
