use elgin::analysis::argument_scope;
use elgin::constraints::{substitute_constraints, substitute_proc_body};
use elgin::errors::{AnalysisError, ErrorKind, Span};
use elgin::ir::{CompareType, IRBuilder, IRProc, Instruction, InstructionType};
use elgin::scope::Scope;
use elgin::solver::{add_literal_constaints, relax_body};
use elgin::types::Type;

fn ins(op: InstructionType, typ: Type, pos: usize, len: usize) -> Span<Instruction> {
    Span { contents: Instruction { ins: op, typ }, pos, len }
}

fn name(s: &str) -> String {
    s.to_string()
}

fn proc(
    id: &str,
    args: Vec<(&str, Type)>,
    ret_type: Type,
    body: Vec<Span<Instruction>>,
) -> IRProc {
    let mut names = Vec::new();
    let mut types = Vec::new();
    for (n, t) in args {
        names.push(name(n));
        types.push(t);
    }
    IRProc { name: name(id), args: names, arg_types: types, ret_type, body }
}

fn builder() -> IRBuilder {
    IRBuilder::new(Vec::new())
}

fn slots(p: &IRProc) -> Vec<Type> {
    p.body.iter().map(|i| i.contents.typ.clone()).collect()
}

fn add_proc(add_slot: Type) -> IRProc {
    proc(
        "add",
        vec![("a", Type::I32), ("b", Type::I32)],
        Type::I32,
        vec![
            ins(InstructionType::Load(name("a")), Type::I32, 27, 1),
            ins(InstructionType::Load(name("b")), Type::I32, 31, 1),
            ins(InstructionType::Add(false), add_slot, 29, 1),
            ins(InstructionType::Return, Type::I32, 20, 6),
        ],
    )
}

#[test]
fn add_of_two_i32_raises_no_constraint() {
    let builder = IRBuilder::new(vec![add_proc(Type::I32)]);
    let generated = builder.gen_constraints(&builder.procs[0]).unwrap();
    assert_eq!(generated, vec![]);
}

#[test]
fn add_of_two_i32_is_left_alone() {
    let mut builder = IRBuilder::new(vec![add_proc(Type::I32)]);
    assert_eq!(builder.analyze(), Ok(()));
    assert_eq!(builder.procs.len(), 1);
    assert_eq!(slots(&builder.procs[0]), vec![Type::I32, Type::I32, Type::I32, Type::I32]);
    assert_eq!(builder.procs[0].body[2].contents.typ, Type::I32);
}

#[test]
fn add_with_a_variable_slot_is_resolved_to_i32() {
    let mut builder = IRBuilder::new(vec![add_proc(Type::Variable(0))]);
    let generated = builder.gen_constraints(&builder.procs[0]).unwrap();
    assert_eq!(
        generated,
        vec![
            (Type::Variable(0), Type::I32),
            (Type::Variable(0), Type::I32),
            (Type::Variable(0), Type::I32),
        ]
    );
    assert_eq!(builder.analyze(), Ok(()));
    assert_eq!(builder.procs[0].body[2].contents.typ, Type::I32);
}

fn literal_proc() -> IRProc {
    proc(
        "f",
        vec![],
        Type::I32,
        vec![
            ins(InstructionType::Push(name("5")), Type::IntLiteral, 22, 1),
            ins(InstructionType::Allocate(name("x")), Type::Unknown, 14, 3),
            ins(InstructionType::Load(name("x")), Type::Unknown, 31, 1),
            ins(InstructionType::Return, Type::Unknown, 24, 6),
        ],
    )
}

#[test]
fn variable_initialised_with_a_literal() {
    let mut builder = IRBuilder::new(vec![literal_proc()]);
    let mut constraints = builder.gen_constraints(&builder.procs[0]).unwrap();
    assert_eq!(
        constraints,
        vec![(Type::IntLiteral, Type::Unknown), (Type::Unknown, Type::I32)]
    );
    add_literal_constaints(&mut constraints, &builder.procs);
    assert_eq!(
        constraints,
        vec![
            (Type::IntLiteral, Type::Unknown),
            (Type::Unknown, Type::I32),
            (Type::IntLiteral, Type::I32),
        ]
    );
    assert_eq!(builder.analyze(), Ok(()));
    let solved = &builder.procs[0];
    assert_eq!(solved.body[0].contents.typ, Type::I32);
    assert_eq!(solved.body[1].contents.typ, Type::I32);
    assert_eq!(slots(solved), vec![Type::I32, Type::I32, Type::I32, Type::I32]);
}

#[test]
fn call_of_an_undeclared_procedure() {
    let caller = proc(
        "main",
        vec![],
        Type::Undefined,
        vec![ins(InstructionType::Call(name("unknown_proc")), Type::Unknown, 17, 12)],
    );
    let mut builder = IRBuilder::new(vec![add_proc(Type::Variable(0)), caller]);
    assert_eq!(
        builder.analyze(),
        Err(AnalysisError { kind: ErrorKind::UnknownProcedure, pos: 17, len: 12 })
    );
    // nothing was rewritten, not even the procedure before the failing one
    assert_eq!(builder.procs.len(), 2);
    assert_eq!(builder.procs[0].body[2].contents.typ, Type::Variable(0));
    assert_eq!(builder.procs[1].body[0].contents.typ, Type::Unknown);
}

#[test]
fn index_into_what_is_no_array() {
    let p = proc(
        "g",
        vec![("a", Type::I32)],
        Type::I32,
        vec![
            ins(InstructionType::Load(name("a")), Type::I32, 3, 1),
            ins(InstructionType::Push(name("0")), Type::IntLiteral, 5, 1),
            ins(InstructionType::Index, Type::Unknown, 4, 3),
        ],
    );
    let mut builder = IRBuilder::new(vec![p]);
    assert_eq!(
        builder.analyze(),
        Err(AnalysisError { kind: ErrorKind::MalformedIR, pos: 4, len: 3 })
    );
}

#[test]
fn index_into_an_array_pushes_the_element_type() {
    let p = proc(
        "g",
        vec![("a", Type::Array(4, Box::new(Type::N8)))],
        Type::N8,
        vec![
            ins(InstructionType::Load(name("a")), Type::Unknown, 3, 1),
            ins(InstructionType::Push(name("0")), Type::I64, 5, 1),
            ins(InstructionType::Index, Type::Unknown, 4, 3),
            ins(InstructionType::Branch(1, 2), Type::Unknown, 0, 0),
        ],
    );
    let builder = IRBuilder::new(vec![p]);
    assert_eq!(
        builder.gen_constraints(&builder.procs[0]).unwrap(),
        vec![(Type::N8, Type::Bool)]
    );
}

#[test]
fn pop_from_an_empty_stack() {
    for op in [
        InstructionType::Store(name("a")),
        InstructionType::StoreIndexed(name("a")),
        InstructionType::Allocate(name("x")),
        InstructionType::Index,
        InstructionType::Branch(0, 1),
        InstructionType::Return,
        InstructionType::Negate(false),
        InstructionType::Add(false),
        InstructionType::Subtract(true),
        InstructionType::Multiply(false),
        InstructionType::IntDivide,
        InstructionType::Divide,
        InstructionType::Compare(CompareType::Less),
    ] {
        let p = proc("h", vec![("a", Type::I8)], Type::I8, vec![ins(op, Type::I8, 9, 2)]);
        let builder = IRBuilder::new(vec![p]);
        assert_eq!(
            builder.gen_constraints(&builder.procs[0]),
            Err(AnalysisError { kind: ErrorKind::MalformedIR, pos: 9, len: 2 })
        );
    }
}

#[test]
fn binary_operator_with_one_operand() {
    let p = proc(
        "h",
        vec![("a", Type::I8)],
        Type::I8,
        vec![
            ins(InstructionType::Load(name("a")), Type::I8, 0, 1),
            ins(InstructionType::Multiply(false), Type::I8, 2, 1),
        ],
    );
    let builder = IRBuilder::new(vec![p]);
    assert_eq!(
        builder.gen_constraints(&builder.procs[0]),
        Err(AnalysisError { kind: ErrorKind::MalformedIR, pos: 2, len: 1 })
    );
}

#[test]
fn load_of_an_unbound_variable() {
    let p = proc(
        "h",
        vec![("a", Type::I8)],
        Type::I8,
        vec![ins(InstructionType::Load(name("b")), Type::I8, 7, 1)],
    );
    let mut builder = IRBuilder::new(vec![p]);
    assert_eq!(
        builder.analyze(),
        Err(AnalysisError { kind: ErrorKind::UnresolvedSymbol, pos: 7, len: 1 })
    );
}

#[test]
fn store_pops_before_it_looks_the_variable_up() {
    let empty = proc(
        "h",
        vec![],
        Type::I8,
        vec![ins(InstructionType::Store(name("b")), Type::I8, 1, 1)],
    );
    let builder = IRBuilder::new(vec![empty]);
    assert_eq!(
        builder.gen_constraints(&builder.procs[0]),
        Err(AnalysisError { kind: ErrorKind::MalformedIR, pos: 1, len: 1 })
    );
    let unbound = proc(
        "h",
        vec![],
        Type::I8,
        vec![
            ins(InstructionType::Push(name("1")), Type::I8, 0, 1),
            ins(InstructionType::Store(name("b")), Type::I8, 1, 1),
        ],
    );
    let builder = IRBuilder::new(vec![unbound]);
    assert_eq!(
        builder.gen_constraints(&builder.procs[0]),
        Err(AnalysisError { kind: ErrorKind::UnresolvedSymbol, pos: 1, len: 1 })
    );
}

#[test]
fn store_constrains_slot_against_value_and_variable() {
    let p = proc(
        "h",
        vec![("a", Type::I64)],
        Type::Undefined,
        vec![
            ins(InstructionType::Push(name("1")), Type::IntLiteral, 0, 1),
            ins(InstructionType::Store(name("a")), Type::Variable(3), 1, 1),
        ],
    );
    let builder = IRBuilder::new(vec![p]);
    assert_eq!(
        builder.gen_constraints(&builder.procs[0]).unwrap(),
        vec![(Type::IntLiteral, Type::Variable(3)), (Type::Variable(3), Type::I64)]
    );
}

#[test]
fn store_indexed_constrains_the_element_type() {
    let body = || {
        vec![
            ins(InstructionType::Push(name("7")), Type::IntLiteral, 0, 1),
            ins(InstructionType::Push(name("0")), Type::N64, 2, 1),
            ins(InstructionType::StoreIndexed(name("a")), Type::Unknown, 1, 1),
        ]
    };
    let array = proc(
        "h",
        vec![("a", Type::Array(2, Box::new(Type::I16)))],
        Type::Undefined,
        body(),
    );
    let builder = IRBuilder::new(vec![array]);
    assert_eq!(
        builder.gen_constraints(&builder.procs[0]).unwrap(),
        vec![(Type::IntLiteral, Type::I16)]
    );
    let scalar = proc("h", vec![("a", Type::I16)], Type::Undefined, body());
    let builder = IRBuilder::new(vec![scalar]);
    assert_eq!(builder.gen_constraints(&builder.procs[0]).unwrap(), vec![]);
}

#[test]
fn call_constrains_arguments_in_order_and_pushes_the_return_type() {
    let callee = proc(
        "mix",
        vec![("p", Type::I8), ("q", Type::F32)],
        Type::N16,
        vec![],
    );
    let caller = proc(
        "main",
        vec![],
        Type::N16,
        vec![
            ins(InstructionType::Push(name("1")), Type::IntLiteral, 0, 1),
            ins(InstructionType::Push(name("2.5")), Type::FloatLiteral, 2, 3),
            ins(InstructionType::Call(name("mix")), Type::Unknown, 6, 3),
            ins(InstructionType::Return, Type::Unknown, 10, 6),
        ],
    );
    let builder = IRBuilder::new(vec![caller, callee]);
    assert_eq!(
        builder.gen_constraints(&builder.procs[0]).unwrap(),
        vec![(Type::IntLiteral, Type::I8), (Type::FloatLiteral, Type::F32)]
    );
}

#[test]
fn call_with_too_few_arguments_on_the_stack() {
    let callee = proc("mix", vec![("p", Type::I8), ("q", Type::F32)], Type::N16, vec![]);
    let caller = proc(
        "main",
        vec![],
        Type::N16,
        vec![
            ins(InstructionType::Push(name("1")), Type::IntLiteral, 0, 1),
            ins(InstructionType::Call(name("mix")), Type::Unknown, 6, 3),
        ],
    );
    let builder = IRBuilder::new(vec![callee, caller]);
    assert_eq!(
        builder.gen_constraints(&builder.procs[1]),
        Err(AnalysisError { kind: ErrorKind::MalformedIR, pos: 6, len: 3 })
    );
}

#[test]
fn call_reaches_the_first_procedure_of_that_name() {
    let first = proc("twice", vec![("p", Type::I8)], Type::I8, vec![]);
    let second = proc("twice", vec![("p", Type::I64)], Type::I64, vec![]);
    let caller = proc(
        "main",
        vec![],
        Type::Undefined,
        vec![
            ins(InstructionType::Push(name("1")), Type::Variable(1), 0, 1),
            ins(InstructionType::Call(name("twice")), Type::Unknown, 6, 3),
        ],
    );
    let builder = IRBuilder::new(vec![first, second, caller]);
    assert_eq!(builder.proc_index(&name("twice")), Some(0));
    assert_eq!(builder.proc_index(&name("main")), Some(2));
    assert_eq!(builder.proc_index(&name("absent")), None);
    assert_eq!(builder.locate_proc(&name("twice")).unwrap().ret_type, Type::I8);
    assert_eq!(builder.locate_proc(&name("absent")).err(), Some(ErrorKind::UnknownProcedure));
    assert_eq!(
        builder.gen_constraints(&builder.procs[2]).unwrap(),
        vec![(Type::Variable(1), Type::I8)]
    );
}

#[test]
fn comparison_pushes_bool_and_negate_pushes_nothing() {
    let p = proc(
        "c",
        vec![("a", Type::I8), ("b", Type::Variable(2))],
        Type::Bool,
        vec![
            ins(InstructionType::Load(name("a")), Type::I8, 0, 1),
            ins(InstructionType::Load(name("b")), Type::I8, 2, 1),
            ins(InstructionType::Compare(CompareType::Less), Type::Variable(9), 1, 1),
            ins(InstructionType::Return, Type::Unknown, 4, 6),
        ],
    );
    let builder = IRBuilder::new(vec![p]);
    // t1 is b's type, t2 is a's type; the variable goes to the left
    assert_eq!(
        builder.gen_constraints(&builder.procs[0]).unwrap(),
        vec![(Type::Variable(2), Type::I8), (Type::Variable(9), Type::Bool)]
    );
    let n = proc(
        "n",
        vec![("a", Type::I8)],
        Type::I8,
        vec![
            ins(InstructionType::Load(name("a")), Type::I8, 0, 1),
            ins(InstructionType::Negate(false), Type::Variable(4), 1, 1),
            ins(InstructionType::Return, Type::Unknown, 4, 6),
        ],
    );
    let builder = IRBuilder::new(vec![n]);
    assert_eq!(
        builder.gen_constraints(&builder.procs[0]),
        Err(AnalysisError { kind: ErrorKind::MalformedIR, pos: 4, len: 6 })
    );
}

#[test]
fn jump_and_label_do_nothing() {
    let p = proc(
        "j",
        vec![],
        Type::Undefined,
        vec![
            ins(InstructionType::Label(1), Type::Unknown, 0, 0),
            ins(InstructionType::Jump(1), Type::Unknown, 0, 0),
        ],
    );
    let builder = IRBuilder::new(vec![p]);
    assert_eq!(builder.gen_constraints(&builder.procs[0]).unwrap(), vec![]);
}

#[test]
fn equal_pair_is_never_recorded() {
    for t in [
        Type::I8,
        Type::Unknown,
        Type::IntLiteral,
        Type::Variable(5),
        Type::Ptr(Box::new(Type::F64)),
        Type::Array(3, Box::new(Type::Bool)),
    ] {
        let mut constraints = vec![(Type::I8, Type::I16)];
        builder().add_constraint(&mut constraints, t.clone(), t);
        assert_eq!(constraints, vec![(Type::I8, Type::I16)]);
    }
}

#[test]
fn wildcards_are_never_recorded() {
    let mut constraints = Vec::new();
    builder().add_constraint(&mut constraints, Type::StrLiteral, Type::I8);
    builder().add_constraint(&mut constraints, Type::I8, Type::StrLiteral);
    builder().add_constraint(&mut constraints, Type::Undefined, Type::Variable(1));
    builder().add_constraint(&mut constraints, Type::Variable(1), Type::Undefined);
    assert_eq!(constraints, vec![]);
}

#[test]
fn constraint_orientation() {
    let mut constraints = Vec::new();
    builder().add_constraint(&mut constraints, Type::I8, Type::Variable(1));
    builder().add_constraint(&mut constraints, Type::Variable(1), Type::I8);
    builder().add_constraint(&mut constraints, Type::F32, Type::FloatLiteral);
    builder().add_constraint(&mut constraints, Type::I64, Type::IntLiteral);
    builder().add_constraint(&mut constraints, Type::I64, Type::Unknown);
    builder().add_constraint(&mut constraints, Type::Unknown, Type::I64);
    builder().add_constraint(&mut constraints, Type::Array(2, Box::new(Type::I8)), Type::Array(3, Box::new(Type::I8)));
    assert_eq!(
        constraints,
        vec![
            (Type::Variable(1), Type::I8),
            (Type::Variable(1), Type::I8),
            (Type::FloatLiteral, Type::F32),
            (Type::IntLiteral, Type::I64),
            (Type::I64, Type::Unknown),
            (Type::Unknown, Type::I64),
            (Type::Array(2, Box::new(Type::I8)), Type::Array(3, Box::new(Type::I8))),
        ]
    );
}

#[test]
fn normalising_a_normalised_constraint() {
    // a concrete target: the same pair again
    let mut once = Vec::new();
    builder().add_constraint(&mut once, Type::I8, Type::Variable(1));
    let (source, target) = once[0].clone();
    let mut twice = Vec::new();
    builder().add_constraint(&mut twice, source, target);
    assert_eq!(twice, once);
    // two variables: swapped each time
    let mut once = Vec::new();
    builder().add_constraint(&mut once, Type::Variable(1), Type::Variable(2));
    assert_eq!(once, vec![(Type::Variable(2), Type::Variable(1))]);
    let (source, target) = once[0].clone();
    let mut twice = Vec::new();
    builder().add_constraint(&mut twice, source, target);
    assert_eq!(twice, vec![(Type::Variable(1), Type::Variable(2))]);
}

#[test]
fn substitution_replaces_whole_terms_only() {
    let body = vec![
        ins(InstructionType::Push(name("1")), Type::IntLiteral, 3, 1),
        ins(InstructionType::Index, Type::Ptr(Box::new(Type::IntLiteral)), 5, 2),
        ins(InstructionType::Return, Type::I8, 7, 6),
    ];
    let new_body = substitute_proc_body(body, &Type::IntLiteral, &Type::I32);
    assert_eq!(new_body.len(), 3);
    assert_eq!(new_body[0].contents.typ, Type::I32);
    assert_eq!(new_body[1].contents.typ, Type::Ptr(Box::new(Type::IntLiteral)));
    assert_eq!(new_body[2].contents.typ, Type::I8);
    assert_eq!((new_body[0].pos, new_body[0].len), (3, 1));
    assert_eq!((new_body[1].pos, new_body[1].len), (5, 2));
    assert_eq!((new_body[2].pos, new_body[2].len), (7, 6));
    assert!(matches!(&new_body[0].contents.ins, InstructionType::Push(s) if s == "1"));
    assert!(matches!(new_body[1].contents.ins, InstructionType::Index));

    let constraints = vec![
        (Type::IntLiteral, Type::Variable(1)),
        (Type::Variable(1), Type::IntLiteral),
        (Type::I8, Type::I16),
    ];
    assert_eq!(
        substitute_constraints(&constraints, &Type::IntLiteral, &Type::I32),
        vec![
            (Type::I32, Type::Variable(1)),
            (Type::Variable(1), Type::I32),
            (Type::I8, Type::I16),
        ]
    );
}

#[test]
fn literal_defaults_look_at_the_whole_program() {
    let ints = proc(
        "a",
        vec![],
        Type::Undefined,
        vec![ins(InstructionType::Push(name("1")), Type::IntLiteral, 0, 1)],
    );
    let floats = proc(
        "b",
        vec![],
        Type::Undefined,
        vec![ins(InstructionType::Push(name("1.5")), Type::FloatLiteral, 0, 3)],
    );
    let none = proc(
        "c",
        vec![("x", Type::IntLiteral)],
        Type::FloatLiteral,
        vec![ins(InstructionType::Push(name("s")), Type::StrLiteral, 0, 1)],
    );

    let mut constraints = vec![(Type::I8, Type::I16)];
    add_literal_constaints(&mut constraints, &vec![none.clone()]);
    assert_eq!(constraints, vec![(Type::I8, Type::I16)]);

    add_literal_constaints(&mut constraints, &vec![none.clone(), floats.clone()]);
    assert_eq!(constraints, vec![(Type::I8, Type::I16), (Type::FloatLiteral, Type::F64)]);

    let mut constraints = Vec::new();
    add_literal_constaints(&mut constraints, &vec![floats.clone(), none.clone(), ints.clone()]);
    assert_eq!(
        constraints,
        vec![(Type::IntLiteral, Type::I32), (Type::FloatLiteral, Type::F64)]
    );

    // a procedure without literals of its own gets the program's defaults
    let mut builder = IRBuilder::new(vec![ints, floats, none]);
    assert_eq!(builder.analyze(), Ok(()));
    assert_eq!(builder.procs[0].body[0].contents.typ, Type::I32);
    assert_eq!(builder.procs[1].body[0].contents.typ, Type::F64);
    assert_eq!(builder.procs[2].body[0].contents.typ, Type::StrLiteral);
    // argument and return types are never rewritten
    assert_eq!(builder.procs[2].arg_types, vec![Type::IntLiteral]);
    assert_eq!(builder.procs[2].ret_type, Type::FloatLiteral);
    assert_eq!(builder.procs[2].name, "c");
    assert_eq!(builder.procs[2].args, vec![name("x")]);
}

#[test]
fn solver_without_constraints_changes_nothing() {
    let body = literal_proc().body;
    let (solved, rules) = relax_body(body, &Vec::new());
    assert_eq!(rules, vec![]);
    let kept: Vec<Type> = solved.iter().map(|i| i.contents.typ.clone()).collect();
    assert_eq!(kept, vec![Type::IntLiteral, Type::Unknown, Type::Unknown, Type::Unknown]);
    let places: Vec<(usize, usize)> = solved.iter().map(|i| (i.pos, i.len)).collect();
    assert_eq!(places, vec![(22, 1), (14, 3), (31, 1), (24, 6)]);
}

#[test]
fn solver_follows_chains_of_three_rounds() {
    // the rules stand in the worst order: each round resolves one link
    let rules = vec![
        (Type::Variable(3), Type::I8),
        (Type::Variable(2), Type::Variable(3)),
        (Type::Variable(1), Type::Variable(2)),
        (Type::Variable(0), Type::Variable(1)),
    ];
    let body = vec![
        ins(InstructionType::Index, Type::Variable(0), 0, 0),
        ins(InstructionType::Index, Type::Variable(1), 0, 0),
        ins(InstructionType::Index, Type::Variable(2), 0, 0),
        ins(InstructionType::Index, Type::Variable(3), 0, 0),
    ];
    let (solved, working) = relax_body(body, &rules);
    let kept: Vec<Type> = solved.iter().map(|i| i.contents.typ.clone()).collect();
    // a chain of four links is one too long for three rounds
    assert_eq!(kept, vec![Type::Variable(3), Type::I8, Type::I8, Type::I8]);
    assert_eq!(
        working,
        vec![
            (Type::I8, Type::I8),
            (Type::I8, Type::I8),
            (Type::I8, Type::I8),
            (Type::Variable(3), Type::I8),
        ]
    );
}

#[test]
fn solver_applies_rules_in_list_order() {
    let body = || vec![ins(InstructionType::Index, Type::Variable(0), 0, 0)];
    let (solved, _) = relax_body(
        body(),
        &vec![(Type::Variable(0), Type::I8), (Type::Variable(0), Type::I16)],
    );
    assert_eq!(solved[0].contents.typ, Type::I8);
    let (solved, _) = relax_body(
        body(),
        &vec![(Type::Variable(0), Type::I16), (Type::Variable(0), Type::I8)],
    );
    assert_eq!(solved[0].contents.typ, Type::I16);
}

#[test]
fn unconstrained_literals_get_their_defaults() {
    let p = proc(
        "lits",
        vec![],
        Type::Undefined,
        vec![
            ins(InstructionType::Push(name("1")), Type::IntLiteral, 0, 1),
            ins(InstructionType::Push(name("2.0")), Type::FloatLiteral, 2, 3),
            ins(InstructionType::Push(name("s")), Type::StrLiteral, 6, 1),
        ],
    );
    let mut builder = IRBuilder::new(vec![p]);
    assert_eq!(builder.gen_constraints(&builder.procs[0]).unwrap(), vec![]);
    assert_eq!(builder.analyze(), Ok(()));
    assert_eq!(slots(&builder.procs[0]), vec![Type::I32, Type::F64, Type::StrLiteral]);
}

#[test]
fn scope_binds_arguments_and_later_bindings_win() {
    let p = proc("s", vec![("a", Type::I8), ("b", Type::I16), ("a", Type::I32)], Type::I8, vec![]);
    assert!(p.is_well_formed());
    let scope = argument_scope(&p);
    assert_eq!(scope.get(&name("a")), Some(Type::I32));
    assert_eq!(scope.get(&name("b")), Some(Type::I16));
    assert_eq!(scope.get(&name("c")), None);
    assert_eq!(scope.locate_var(&name("b")), Ok(Type::I16));
    assert_eq!(scope.locate_var(&name("c")), Err(ErrorKind::UnresolvedSymbol));

    let mut scope = Scope::new();
    assert_eq!(scope.get(&name("x")), None);
    scope.insert(name("x"), Type::Unknown);
    scope.insert(name("x"), Type::Bool);
    assert_eq!(scope.get(&name("x")), Some(Type::Bool));
}

#[test]
fn allocate_binds_the_variable_for_later_loads() {
    let p = proc(
        "v",
        vec![("x", Type::I8)],
        Type::F32,
        vec![
            ins(InstructionType::Push(name("1.0")), Type::F32, 0, 3),
            ins(InstructionType::Allocate(name("x")), Type::Variable(0), 4, 1),
            ins(InstructionType::Load(name("x")), Type::Unknown, 6, 1),
            ins(InstructionType::Return, Type::Unknown, 8, 6),
        ],
    );
    let builder = IRBuilder::new(vec![p]);
    assert_eq!(
        builder.gen_constraints(&builder.procs[0]).unwrap(),
        vec![(Type::Variable(0), Type::F32), (Type::Variable(0), Type::F32)]
    );
}

#[test]
fn misaligned_arguments_are_told() {
    let mut p = proc("m", vec![("a", Type::I8)], Type::I8, vec![]);
    assert!(IRBuilder::new(vec![p.clone()]).is_well_formed());
    p.arg_types.push(Type::I8);
    assert!(!p.is_well_formed());
    assert!(!IRBuilder::new(vec![p]).is_well_formed());
}

#[test]
fn type_terms_compare_structurally() {
    assert!(Type::Ptr(Box::new(Type::I8)).same(&Type::Ptr(Box::new(Type::I8))));
    assert!(!Type::Ptr(Box::new(Type::I8)).same(&Type::Ptr(Box::new(Type::N8))));
    assert!(!Type::Array(2, Box::new(Type::I8)).same(&Type::Array(3, Box::new(Type::I8))));
    assert!(!Type::Variable(1).same(&Type::Variable(2)));
    assert!(Type::Variable(1).eliminable());
    assert!(Type::StrLiteral.eliminable() && Type::StrLiteral.wildcard());
    assert!(Type::Undefined.wildcard() && !Type::Undefined.eliminable());
    assert!(!Type::Unknown.wildcard() && !Type::Unknown.eliminable());
}
