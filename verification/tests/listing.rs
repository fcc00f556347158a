use lib::explorer::{InstructionKind, IrElement};
use lib::ir::{BasicBlock, FunctionIr, Instruction, Terminator, Value, Variable};
use lib::listing::{ir_listing, source_lines, ui_values, ui_variables, ObjectDetails};
use lib::operator::Operator;
use lib::primitive::PrimitiveType;
use lib::span::{Span, SpanIndex};
use lib::types::{AnyTypeKey, AutoTypes, RefType, Types};

const I32: AnyTypeKey = AnyTypeKey::Primitive(PrimitiveType::I32);

fn at(index: usize) -> SpanIndex {
    SpanIndex { index, len: 1 }
}

/// `fn add(a) { ret a + a }` in two blocks.
fn function() -> FunctionIr {
    let first = BasicBlock {
        instructions: vec![
            Span::new(Instruction::LoadVar { src: 0, dst: 1 }, at(12)),
            Span::new(
                Instruction::BinOp { op: Operator::Add, l: 1, r: 1, dst: 2, ty: PrimitiveType::I32 },
                at(20),
            ),
        ],
        terminator: Some(Terminator::Jump(1, Some(2))),
        instr_lock: false,
        parameter: None,
    };
    let second = BasicBlock {
        instructions: vec![],
        terminator: Some(Terminator::Return(Some(3))),
        instr_lock: false,
        parameter: Some(3),
    };
    FunctionIr {
        source: Some(0),
        type_of: None,
        variables: vec![Variable {
            identifier: Span::new("a".to_string(), at(7)),
            ty: I32,
            value: 0,
            used: true,
            mutated: false,
            needs_address: false,
        }],
        values: vec![
            Value { ty: I32, needs_address: false, used: true },
            Value { ty: I32, needs_address: false, used: true },
            Value { ty: I32, needs_address: false, used: true },
            Value { ty: AnyTypeKey::Reference(0), needs_address: false, used: true },
        ],
        blocks: vec![first, second],
        blocks_entry: 0,
        substitutions: None,
        void: 0,
        returns: Some(I32),
        parameters: vec![("a".to_string(), 0)],
    }
}

fn types() -> Types {
    let mut t = Types::default();
    AutoTypes::new(&mut t);
    t.references.push(RefType { inner: I32 });
    t
}

const SOURCE: &str = "fn add(a) {\n  ret a\n   + a\n}\n";

#[test]
fn listing_shows_labels_instructions_and_terminators() {
    let rows = ir_listing(&function(), SOURCE);
    assert_eq!(rows.len(), 6);
    assert_eq!(rows[0].elements, vec![IrElement::Block(0)]);
    assert_eq!(rows[0].kind, InstructionKind::BlockLabel);
    assert_eq!(rows[0].description, "Block Label");
    let text: Vec<String> = rows[2].elements.iter().map(|e| e.stringify()).collect();
    assert_eq!(text.concat(), "val_2 = val_1 Add val_1");
    assert_eq!(rows[1].source_line_index, Some(1));
    assert_eq!(rows[2].source_line_index, Some(2));
    assert_eq!(rows[2].kind, InstructionKind::Normal);
    assert_eq!(rows[2].description, "Binary arithmetic or logical operation");
    assert_eq!(rows[3].kind, InstructionKind::Terminator);
    assert_eq!(rows[3].description, "Jump to block");
    assert_eq!(rows[3].source_line_index, None);
    // a block with a parameter shows it after its label
    let label: Vec<String> = rows[4].elements.iter().map(|e| e.stringify()).collect();
    assert_eq!(label.concat(), "block_1 (val_3)");
    assert_eq!(rows[4].block_idx, 1);
    assert_eq!(rows[5].description, "Return from function");
}

#[test]
fn variables_and_values_show_their_types() {
    let t = types();
    let f = function();
    let vars = ui_variables(&f, &t);
    assert_eq!(vars.len(), 1);
    assert_eq!((vars[0].id, vars[0].identifier.as_str(), vars[0].ty.as_str()), (0, "a", "i32"));
    let vals = ui_values(&f, &t);
    assert_eq!(vals.len(), 4);
    assert_eq!(vals[3].ty, "&i32");
    assert_eq!(vals[3].id, 3);
}

#[test]
fn source_lines_split_like_str_lines() {
    assert_eq!(source_lines(SOURCE), vec!["fn add(a) {", "  ret a", "   + a", "}"]);
    assert_eq!(source_lines("a\r\nb\n\nc"), vec!["a", "b", "", "c"]);
    assert_eq!(source_lines(""), Vec::<String>::new());
    assert_eq!(source_lines("\n"), vec![""]);
    for text in ["x\ny\n", "x\r\n", "\r\n\r\n", "one", "a\rb\n"] {
        let expected: Vec<String> = text.lines().map(String::from).collect();
        assert_eq!(source_lines(text), expected);
    }
}

#[test]
fn details_take_colours_in_turn() {
    let t = types();
    let f = function();
    let lines = source_lines(SOURCE);
    let d = ObjectDetails::of(&f, &t, SOURCE, &lines, 5);
    assert_eq!(d.color_index, 1);
    assert_eq!(d.source_lines, lines);
    assert_eq!(d.ir_instructions.len(), 6);
    assert_eq!(d.ir_variables.len(), 1);
    assert_eq!(d.ir_values.len(), 4);
}
