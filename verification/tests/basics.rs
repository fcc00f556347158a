use lib::explorer::{build_line_colors, byte_to_line_index, InstructionKind, IrElement, UiIrInstruction};
use lib::fib::{fib_rust, fib_rust_rec};
use lib::init_state::InitState;
use lib::layout::{align_up, size_of_prim, struct_layout, Layout, LayoutError, LayoutOptions};
use lib::primitive::PrimitiveType;
use lib::span::{Span, SpanIndex};

const ALL: [PrimitiveType; 20] = [
    PrimitiveType::I8,
    PrimitiveType::I16,
    PrimitiveType::I32,
    PrimitiveType::I64,
    PrimitiveType::I128,
    PrimitiveType::U8,
    PrimitiveType::U16,
    PrimitiveType::U32,
    PrimitiveType::U64,
    PrimitiveType::U128,
    PrimitiveType::F32,
    PrimitiveType::F64,
    PrimitiveType::F32x2,
    PrimitiveType::F64x2,
    PrimitiveType::F32x4,
    PrimitiveType::F64x4,
    PrimitiveType::Char,
    PrimitiveType::Bool,
    PrimitiveType::Void,
    PrimitiveType::EntityRef,
];

#[test]
fn primitive_names_read_back() {
    for p in ALL {
        if p != PrimitiveType::Void {
            assert_eq!(PrimitiveType::from_str(p.stringify()), Some(p));
        }
    }
    assert_eq!(PrimitiveType::Void.stringify(), "()");
    assert_eq!(PrimitiveType::EntityRef.stringify(), "entity");
    assert_eq!(PrimitiveType::from_str("()"), None);
    assert_eq!(PrimitiveType::from_str("int"), None);
    assert_eq!(PrimitiveType::from_str(""), None);
}

#[test]
fn primitive_names_are_distinct() {
    for a in ALL {
        for b in ALL {
            if a != b {
                assert_ne!(a.stringify(), b.stringify());
            }
        }
    }
}

#[test]
fn primitive_sizes() {
    assert_eq!(PrimitiveType::I64.int_size(), Some(64));
    assert_eq!(PrimitiveType::U64.int_size(), None);
    assert_eq!(PrimitiveType::U16.uint_size(), Some(16));
    assert_eq!(PrimitiveType::F32.float_size(), Some(32));
    assert_eq!(PrimitiveType::F32x2.float_size(), None);
    assert_eq!(PrimitiveType::I128.number_size(), Some(128));
    assert_eq!(PrimitiveType::F64.number_size(), Some(64));
    assert_eq!(PrimitiveType::Bool.number_size(), None);
    assert!(PrimitiveType::U8.is_numeric());
    assert!(PrimitiveType::F64.is_numeric());
    assert!(!PrimitiveType::Char.is_numeric());
    assert!(!PrimitiveType::F32x4.is_numeric());
}

#[test]
fn scalar_sizes_in_bytes() {
    assert_eq!(size_of_prim(PrimitiveType::Bool), 1);
    assert_eq!(size_of_prim(PrimitiveType::I16), 2);
    assert_eq!(size_of_prim(PrimitiveType::Char), 4);
    assert_eq!(size_of_prim(PrimitiveType::F64), 8);
    assert_eq!(size_of_prim(PrimitiveType::U128), 16);
}

#[test]
fn align_up_rounds_to_the_next_multiple() {
    assert_eq!(align_up(0, 8), 0);
    assert_eq!(align_up(1, 8), 8);
    assert_eq!(align_up(8, 8), 8);
    assert_eq!(align_up(9, 4), 12);
    assert_eq!(align_up(13, 1), 13);
}

#[test]
fn layout_options_give_size_and_alignment() {
    let prim = LayoutOptions::Primitive(Layout::from_size_align_unchecked(4, 4));
    assert_eq!(prim.size(), Some(4));
    assert_eq!(prim.align(), Some(4));
    assert_eq!(prim.layout(), Some(&Layout { size: 4, align: 4 }));
    let unsized_ = LayoutOptions::Unsized { align: 8 };
    assert_eq!(unsized_.size(), None);
    assert_eq!(unsized_.align(), Some(8));
    assert_eq!(unsized_.layout(), None);
    assert_eq!(LayoutOptions::Void.size(), None);
    assert_eq!(LayoutOptions::Void.align(), None);
}

#[test]
fn struct_layout_places_fields_at_aligned_offsets() {
    let fields = [
        LayoutOptions::Primitive(Layout { size: 1, align: 1 }),
        LayoutOptions::Primitive(Layout { size: 4, align: 4 }),
        LayoutOptions::Primitive(Layout { size: 2, align: 2 }),
    ];
    let (offsets, layout) = struct_layout(&fields).unwrap();
    let offsets: Vec<usize> = offsets.iter().map(|f| f.offset).collect();
    assert_eq!(offsets, vec![0, 4, 8]);
    assert_eq!(layout, Layout { size: 12, align: 4 });
    let (offsets, layout) = struct_layout(&[]).unwrap();
    assert!(offsets.is_empty());
    assert_eq!(layout, Layout { size: 0, align: 1 });
}

#[test]
fn struct_layout_rejects_unsized_fields() {
    let fields = [
        LayoutOptions::Primitive(Layout { size: 1, align: 1 }),
        LayoutOptions::Unsized { align: 4 },
        LayoutOptions::Void,
    ];
    assert_eq!(struct_layout(&fields), Err(LayoutError::TypeIsUnsized(1)));
    assert_eq!(struct_layout(&[LayoutOptions::Void]), Err(LayoutError::TypeIsUnsized(0)));
}

#[test]
fn init_state_lifecycle() {
    let mut s: InitState<u32> = InitState::Progress(3);
    assert!(!s.is_done());
    assert_eq!(*s.get(), 3);
    s.mark_done();
    assert!(s.is_done());
    assert_eq!(*s.get_done(), 3);
    let mut u: InitState<u32> = InitState::Uninitialized;
    u.mark_done();
    assert_eq!(u, InitState::Uninitialized);
}

#[test]
fn fibonacci_numbers() {
    let expected = [0, 1, 1, 2, 3, 5, 8, 13, 21, 34, 55];
    for (n, f) in expected.iter().enumerate() {
        assert_eq!(fib_rust(n as i32), *f);
        assert_eq!(fib_rust_rec(n as i32), *f);
    }
    assert_eq!(fib_rust(46), 1836311903);
    assert_eq!(fib_rust(-3), -3);
}

#[test]
fn spans_join_and_map() {
    let a = SpanIndex { index: 2, len: 3 };
    let b = SpanIndex { index: 10, len: 4 };
    assert_eq!(a.add(b), SpanIndex { index: 2, len: 11 });
    let s = Span::new(5u32, a);
    let t = s.map(|v| *v * 2);
    assert_eq!(*t.inner, 10);
    assert_eq!(t.location, a);
    let d = t.duplicate();
    assert_eq!(*d.inner, 10);
    assert_eq!(d.location, a);
}

#[test]
fn byte_index_to_line() {
    let src = "ab\ncd\n\u{e9}f\ng";
    assert_eq!(byte_to_line_index(src, 0), 0);
    assert_eq!(byte_to_line_index(src, 2), 0);
    assert_eq!(byte_to_line_index(src, 3), 1);
    assert_eq!(byte_to_line_index(src, 6), 2);
    assert_eq!(byte_to_line_index(src, 10), 3);
    assert_eq!(byte_to_line_index(src, 100), 3);
}

fn instruction(line: Option<usize>) -> UiIrInstruction {
    UiIrInstruction {
        elements: vec![],
        source_line_index: line,
        block_idx: 0,
        description: String::new(),
        kind: InstructionKind::Normal,
    }
}

#[test]
fn line_colours_number_lines_in_order_of_appearance() {
    let instrs = [
        instruction(Some(7)),
        instruction(None),
        instruction(Some(3)),
        instruction(Some(7)),
        instruction(Some(9)),
    ];
    let m = build_line_colors(&instrs);
    assert_eq!(m.len(), 3);
    assert_eq!(m.get(&7), Some(&0));
    assert_eq!(m.get(&3), Some(&1));
    assert_eq!(m.get(&9), Some(&2));
    assert!(build_line_colors(&[]).is_empty());
}

#[test]
fn ir_elements_as_text() {
    assert_eq!(IrElement::Text(" = ".to_string()).stringify(), " = ");
    assert_eq!(IrElement::Variable { id: 3 }.stringify(), "var_3");
    assert_eq!(IrElement::Value { id: 12 }.stringify(), "val_12");
    assert_eq!(IrElement::Function { id: 0 }.stringify(), "fn_0");
    assert_eq!(IrElement::Operator(" Add ".to_string()).stringify(), " Add ");
    assert_eq!(IrElement::Block(105).stringify(), "block_105");
}
