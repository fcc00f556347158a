use lib::explorer::{
    generate_instr_elements, generate_terminator_elements, instruction_description, terminator_description,
    IrElement,
};
use lib::ir::{AnyObjectKey, Instruction, Terminator};
use lib::operator::{Operator, UnaryOp};
use lib::primitive::PrimitiveType;

fn text(s: &str) -> IrElement {
    IrElement::Text(s.to_string())
}

fn line(elements: &[IrElement]) -> String {
    elements.iter().map(|e| e.stringify()).collect()
}

#[test]
fn instruction_elements() {
    let e = generate_instr_elements(&Instruction::LoadConst { src: 4, dst: 1 });
    assert_eq!(e, vec![IrElement::Value { id: 1 }, text(" = const "), text("key_4")]);
    let e = generate_instr_elements(&Instruction::BinOp { op: Operator::Add, l: 1, r: 2, dst: 3, ty: PrimitiveType::I32 });
    assert_eq!(
        e,
        vec![
            IrElement::Value { id: 3 },
            text(" = "),
            IrElement::Value { id: 1 },
            IrElement::Operator(" Add ".to_string()),
            IrElement::Value { id: 2 },
        ]
    );
    assert_eq!(line(&e), "val_3 = val_1 Add val_2");
    let e = generate_instr_elements(&Instruction::UnaryOp { op: UnaryOp::Neg, src: 0, dst: 5 });
    assert_eq!(line(&e), "val_5 = Neg val_0");
    let e = generate_instr_elements(&Instruction::StoreVar { dst: 2, src: 7 });
    assert_eq!(line(&e), "var_2 = val_7");
    let e = generate_instr_elements(&Instruction::LoadVar { src: 2, dst: 8 });
    assert_eq!(line(&e), "val_8 = var_2");
    let e = generate_instr_elements(&Instruction::AddressOfObj { obj: AnyObjectKey::Function(3), dst: 9 });
    assert_eq!(line(&e), "val_9 = ref obj Function(3)");
    let e = generate_instr_elements(&Instruction::AddressOfFun { fun: 1, dst: 9 });
    assert_eq!(line(&e), "val_9 = ref fun fn_1");
    let e = generate_instr_elements(&Instruction::AddressOfVar { var: 1, dst: 9 });
    assert_eq!(line(&e), "val_9 = ref var var_1");
    let e = generate_instr_elements(&Instruction::AddressOfVal { val: 1, dst: 9 });
    assert_eq!(line(&e), "val_9 = ref val val_1");
    let e = generate_instr_elements(&Instruction::Deref { src: 1, dst: 9 });
    assert_eq!(line(&e), "val_9 = deref val_1");
}

#[test]
fn call_elements_separate_arguments() {
    let e = generate_instr_elements(&Instruction::Call { fun: 2, arguments: vec![4, 5, 6], result: 7 });
    assert_eq!(e.len(), 4 + 5 + 1);
    assert_eq!(line(&e), "val_7 = call fn_2(val_4, val_5, val_6)");
    let e = generate_instr_elements(&Instruction::Call { fun: 2, arguments: vec![], result: 7 });
    assert_eq!(line(&e), "val_7 = call fn_2()");
}

#[test]
fn terminator_elements() {
    assert_eq!(line(&generate_terminator_elements(&Terminator::Return(Some(3)))), "ret val_3");
    assert_eq!(line(&generate_terminator_elements(&Terminator::Return(None))), "ret");
    assert_eq!(line(&generate_terminator_elements(&Terminator::Jump(2, Some(1)))), "jmp block_2 (val_1)");
    assert_eq!(generate_terminator_elements(&Terminator::Jump(2, None)), vec![text("jmp "), IrElement::Block(2)]);
    let br = Terminator::Branch { condition: 0, then_block: 1, else_block: 2 };
    assert_eq!(line(&generate_terminator_elements(&br)), "br val_0, block_1, block_2");
    assert_eq!(line(&generate_terminator_elements(&Terminator::Unreachable)), "unreachable");
    assert_eq!(generate_terminator_elements(&Terminator::Exit(42)), vec![text("exit 42")]);
}

#[test]
fn descriptions() {
    assert_eq!(instruction_description(&Instruction::LoadConst { src: 0, dst: 0 }), "Load a constant value");
    assert_eq!(
        instruction_description(&Instruction::Call { fun: 0, arguments: vec![], result: 0 }),
        "Execute a function call"
    );
    assert_eq!(instruction_description(&Instruction::Deref { src: 0, dst: 0 }), "Dereference a pointer to a value");
    assert_eq!(terminator_description(&Terminator::Unreachable), "Unreachable path");
    assert_eq!(terminator_description(&Terminator::Exit(1)), "Terminate execution");
    assert_eq!(terminator_description(&Terminator::Jump(0, None)), "Jump to block");
}
