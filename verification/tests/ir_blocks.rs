use lib::ir::{
    dead_code_elimination, eliminate_in_block, BasicBlock, BlockCtx, ControlFrame, ControlFrameKind,
    FunctionIr, Instruction, Terminator, Value, Variable,
};
use lib::init_state::InitState;
use lib::objects::{AccessModifiers, AnyObject, FunctionObj, IrCache};
use lib::operator::Operator;
use lib::primitive::PrimitiveType;
use lib::span::{Span, SpanIndex};
use lib::types::AnyTypeKey;

const I32: AnyTypeKey = AnyTypeKey::Primitive(PrimitiveType::I32);

fn at(index: usize) -> SpanIndex {
    SpanIndex { index, len: 1 }
}

fn block(instrs: Vec<Instruction>, terminator: Option<Terminator>) -> BasicBlock {
    BasicBlock {
        instructions: instrs.into_iter().enumerate().map(|(i, x)| Span::new(x, at(i))).collect(),
        terminator,
        instr_lock: false,
        parameter: None,
    }
}

fn values(n: usize) -> Vec<Value> {
    (0..n).map(|_| Value { ty: I32, needs_address: false, used: false }).collect()
}

fn variable(value: usize) -> Variable {
    Variable {
        identifier: Span::new("x".to_string(), at(0)),
        ty: I32,
        value,
        used: false,
        mutated: false,
        needs_address: false,
    }
}

fn instrs_of(b: &BasicBlock) -> Vec<Instruction> {
    b.instructions().iter().map(|s| (*s.inner).clone()).collect()
}

fn function(blocks: Vec<BasicBlock>, nvalues: usize, variables: Vec<Variable>) -> FunctionIr {
    FunctionIr {
        source: None,
        type_of: None,
        variables,
        values: values(nvalues),
        blocks,
        blocks_entry: 0,
        substitutions: None,
        void: 0,
        returns: None,
        parameters: vec![],
    }
}

#[test]
fn extend_appends_unless_locked() {
    let mut b = block(vec![], None);
    b.extend(vec![Instruction::LoadConst { src: 0, dst: 0 }, Instruction::Deref { src: 0, dst: 1 }], at(5));
    assert_eq!(b.instructions().len(), 2);
    assert_eq!(b.instructions()[1].location, at(5));
    b.lock_instructions(true);
    b.extend(vec![Instruction::LoadConst { src: 1, dst: 2 }], at(6));
    assert_eq!(b.instructions().len(), 2);
    b.lock_instructions(false);
    b.extend(vec![Instruction::LoadConst { src: 1, dst: 2 }], at(6));
    assert_eq!(instrs_of(&b)[2], Instruction::LoadConst { src: 1, dst: 2 });
}

#[test]
fn terminate_keeps_the_first_terminator_unless_told() {
    let mut b = block(vec![], None);
    b.terminate(Terminator::Return(None), false);
    b.terminate(Terminator::Unreachable, false);
    assert_eq!(*b.terminator(), Some(Terminator::Return(None)));
    b.terminate(Terminator::Exit(3), true);
    assert_eq!(*b.terminator(), Some(Terminator::Exit(3)));
}

fn frame(label: Option<&str>, break_block: usize, continue_block: usize) -> ControlFrame {
    ControlFrame { label: label.map(|s| s.to_string()), kind: ControlFrameKind::Loop { break_block, continue_block } }
}

#[test]
fn break_and_continue_find_their_loop() {
    let ctx = BlockCtx {
        source: 0,
        control_stack: vec![frame(Some("outer"), 1, 2), frame(None, 3, 4), frame(Some("inner"), 5, 6)],
    };
    assert_eq!(ctx.get_break_block(&None).ok(), Some(5));
    assert_eq!(ctx.get_continue_block(&None).ok(), Some(6));
    assert_eq!(ctx.get_break_block(&Some("outer".to_string())).ok(), Some(1));
    assert_eq!(ctx.get_continue_block(&Some("outer".to_string())).ok(), Some(2));
    assert_eq!(ctx.get_break_block(&Some("inner".to_string())).ok(), Some(5));
}

#[test]
fn eliminate_in_block_drops_unused_results() {
    let b = block(
        vec![
            Instruction::LoadConst { src: 0, dst: 0 },
            Instruction::LoadConst { src: 1, dst: 1 },
            Instruction::BinOp { op: Operator::Add, l: 0, r: 1, dst: 2, ty: PrimitiveType::I32 },
            Instruction::LoadConst { src: 2, dst: 3 },
        ],
        None,
    );
    let mut vals = values(4);
    vals[2].used = true;
    let mut vars: Vec<Variable> = vec![];
    let kept = eliminate_in_block(&b.instructions, &mut vals, &mut vars);
    let kept: Vec<Instruction> = kept.iter().map(|s| (*s.inner).clone()).collect();
    assert_eq!(kept, instrs_of(&b)[0..3].to_vec());
    let marks: Vec<bool> = vals.iter().map(|v| v.used).collect();
    assert_eq!(marks, vec![true, true, true, false]);
}

#[test]
fn stores_are_kept_for_used_variables_and_calls_always() {
    let b = block(
        vec![
            Instruction::LoadConst { src: 0, dst: 0 },
            Instruction::StoreVar { dst: 0, src: 0 },
            Instruction::LoadConst { src: 1, dst: 1 },
            Instruction::StoreVar { dst: 1, src: 1 },
            Instruction::Call { fun: 0, arguments: vec![2], result: 3 },
            Instruction::LoadConst { src: 2, dst: 2 },
        ],
        None,
    );
    let mut vals = values(4);
    let mut vars = vec![variable(0), variable(1)];
    vars[0].used = true;
    let kept = eliminate_in_block(&b.instructions, &mut vals, &mut vars);
    let kept: Vec<Instruction> = kept.iter().map(|s| (*s.inner).clone()).collect();
    assert_eq!(
        kept,
        vec![
            Instruction::LoadConst { src: 0, dst: 0 },
            Instruction::StoreVar { dst: 0, src: 0 },
            Instruction::Call { fun: 0, arguments: vec![2], result: 3 },
        ]
    );
    let marks: Vec<bool> = vals.iter().map(|v| v.used).collect();
    assert_eq!(marks, vec![true, false, true, false]);
}

#[test]
fn dead_code_elimination_follows_the_reachable_blocks() {
    let entry = block(
        vec![
            Instruction::LoadConst { src: 0, dst: 0 },
            Instruction::LoadConst { src: 1, dst: 1 },
            Instruction::BinOp { op: Operator::Mul, l: 0, r: 0, dst: 2, ty: PrimitiveType::I32 },
        ],
        Some(Terminator::Jump(1, Some(2))),
    );
    let exit = block(vec![Instruction::LoadConst { src: 2, dst: 3 }], Some(Terminator::Return(None)));
    let unreachable = block(vec![Instruction::LoadConst { src: 3, dst: 4 }], Some(Terminator::Unreachable));
    let mut ir = function(vec![entry, exit, unreachable], 5, vec![]);
    dead_code_elimination(&mut ir);
    assert_eq!(
        instrs_of(&ir.blocks[0]),
        vec![
            Instruction::LoadConst { src: 0, dst: 0 },
            Instruction::BinOp { op: Operator::Mul, l: 0, r: 0, dst: 2, ty: PrimitiveType::I32 },
        ]
    );
    assert!(instrs_of(&ir.blocks[1]).is_empty());
    assert_eq!(instrs_of(&ir.blocks[2]), vec![Instruction::LoadConst { src: 3, dst: 4 }]);
    let marks: Vec<bool> = ir.values.iter().map(|v| v.used).collect();
    assert_eq!(marks, vec![true, false, true, false, false]);
}

#[test]
fn dead_code_elimination_marks_branch_conditions() {
    let entry = block(
        vec![Instruction::LoadConst { src: 0, dst: 0 }],
        Some(Terminator::Branch { condition: 0, then_block: 1, else_block: 0 }),
    );
    let then_block = block(vec![Instruction::LoadConst { src: 1, dst: 1 }], Some(Terminator::Return(Some(1))));
    let mut ir = function(vec![entry, then_block], 2, vec![]);
    dead_code_elimination(&mut ir);
    assert_eq!(instrs_of(&ir.blocks[0]).len(), 1);
    assert_eq!(instrs_of(&ir.blocks[1]).len(), 1);
    let marks: Vec<bool> = ir.values.iter().map(|v| v.used).collect();
    assert_eq!(marks, vec![true, true]);
}

fn function_object(ret: AnyTypeKey) -> AnyObject<FunctionObj> {
    let data = FunctionObj {
        return_type: InitState::Done(ret),
        params: vec![
            (Span::new("a".to_string(), at(4)), InitState::Done(I32)),
            (Span::new("b".to_string(), at(7)), InitState::Done(AnyTypeKey::Primitive(PrimitiveType::Bool))),
        ],
        generics: vec![],
        type_of: InitState::Done(5),
        ir: IrCache::Single(InitState::Uninitialized),
        generic_scope: InitState::Done(0),
    };
    AnyObject::new("add".to_string(), data, Some(2), 1, AccessModifiers::Public)
}

#[test]
fn a_new_function_has_its_parameters() {
    let fun = function_object(I32);
    assert_eq!(fun.identifier, "add");
    assert_eq!(fun.module, 1);
    assert_eq!(fun.access, AccessModifiers::Public);
    let ir = FunctionIr::new(&fun, 9);
    assert_eq!(ir.source, Some(9));
    assert_eq!(ir.type_of, Some(AnyTypeKey::Function(5)));
    assert_eq!(ir.returns, Some(I32));
    assert_eq!(ir.blocks.len(), 1);
    assert_eq!(ir.blocks_entry, 0);
    assert!(ir.blocks[0].instructions().is_empty() && ir.blocks[0].terminator().is_none());
    assert_eq!(ir.void, 0);
    assert_eq!(ir.values.len(), 3);
    assert_eq!(ir.values[0], Value { ty: AnyTypeKey::Primitive(PrimitiveType::Void), needs_address: false, used: false });
    assert_eq!(ir.values[2].ty, AnyTypeKey::Primitive(PrimitiveType::Bool));
    assert_eq!(ir.variables.len(), 2);
    assert_eq!(ir.variables[1].value, 2);
    assert_eq!(*ir.variables[1].identifier.inner, "b");
    assert_eq!(ir.variables[1].identifier.location, at(7));
    assert_eq!(ir.parameters, vec![("a".to_string(), 0), ("b".to_string(), 1)]);
}

#[test]
fn const_stage_update_adds_the_parameters() {
    let void_fun = function_object(AnyTypeKey::Primitive(PrimitiveType::Void));
    let mut ir = function(vec![block(vec![], None)], 3, vec![variable(0)]);
    ir.const_stage_update(&void_fun, 4);
    assert_eq!(ir.source, Some(4));
    assert_eq!(ir.returns, None);
    assert_eq!(ir.type_of, Some(AnyTypeKey::Function(5)));
    assert_eq!(ir.values.len(), 5);
    assert_eq!(ir.variables.len(), 3);
    assert_eq!(ir.variables[2].value, 4);
    assert_eq!(ir.parameters, vec![("a".to_string(), 1), ("b".to_string(), 2)]);
    let mut ir = function(vec![block(vec![], None)], 1, vec![]);
    ir.const_stage_update(&function_object(I32), 4);
    assert_eq!(ir.returns, Some(I32));
}
