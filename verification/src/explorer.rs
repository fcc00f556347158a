//! What the compiler explorer shows: instructions of the lowered code,
//! their source lines, and the colours that tie the two together.

use crate::const_value::{decimal, push_decimal, push_str};
use crate::ir::{AnyObjectKey, Instruction, Terminator};
use crate::operator::{Operator, UnaryOp};
use crate::literal::string_of;
use std::collections::HashMap;
use vstd::prelude::*;

verus! {

/// A module as listed by the explorer.
#[derive(Debug, Clone)]
pub struct UiModule {
    pub id: usize,
    pub name: String,
    pub objects: Vec<UiModuleObject>,
}

/// An object of a module as listed by the explorer.
#[derive(Debug, Clone)]
pub struct UiModuleObject {
    pub name: String,
    pub is_exported: bool,
    pub is_polymorphic: bool,
}

/// A variable of a lowered function.
#[derive(Debug, Clone)]
pub struct UiVariable {
    pub id: usize,
    pub identifier: String,
    pub ty: String,
}

/// A value of a lowered function.
#[derive(Debug, Clone)]
pub struct UiValue {
    pub id: usize,
    pub ty: String,
}

/// What kind of line an instruction row is.
#[derive(Debug, Clone, Copy, PartialEq, Eq, Structural)]
pub enum InstructionKind {
    BlockLabel,
    Normal,
    Terminator,
}

/// A piece of a rendered instruction.
#[derive(Debug, Clone, PartialEq, Eq)]
pub enum IrElement {
    Text(String),
    Variable { id: usize },
    Value { id: usize },
    Function { id: usize },
    Operator(String),
    Block(usize),
}

/// A rendered instruction and the source line it comes from.
#[derive(Debug, Clone)]
pub struct UiIrInstruction {
    pub elements: Vec<IrElement>,
    pub source_line_index: Option<usize>,
    pub block_idx: usize,
    pub description: String,
    pub kind: InstructionKind,
}

/// The number of bytes a character takes in UTF-8.
pub open spec fn utf8_len(c: char) -> int {
    if (c as u32) < 0x80 {
        1
    } else if (c as u32) < 0x800 {
        2
    } else if (c as u32) < 0x10000 {
        3
    } else {
        4
    }
}

/// The number of line breaks among the characters of `s` that start
/// before byte `b` of its UTF-8 encoding.
pub open spec fn newlines_before(s: Seq<char>, b: int) -> nat
    decreases s.len(),
{
    if s.len() == 0 || b <= 0 {
        0
    } else {
        (if s[0] == '\n' { 1nat } else { 0nat }) + newlines_before(s.drop_first(), b - utf8_len(s[0]))
    }
}

fn char_utf8_len(c: char) -> (n: usize)
    ensures
        n == utf8_len(c),
{
    let v = c as u32;
    if v < 0x80 {
        1
    } else if v < 0x800 {
        2
    } else if v < 0x10000 {
        3
    } else {
        4
    }
}

proof fn lemma_newlines_before_bound(s: Seq<char>, b: int)
    ensures
        newlines_before(s, b) <= s.len(),
    decreases s.len(),
{
    if s.len() > 0 && b > 0 {
        lemma_newlines_before_bound(s.drop_first(), b - utf8_len(s[0]));
    }
}

/// The zero-based line of the source text on which byte `byte_index` lies:
/// the number of line breaks that start before it.
pub fn byte_to_line_index(raw_source: &str, byte_index: usize) -> (n: usize)
    ensures
        n == newlines_before(raw_source@, byte_index as int),
{
    let cs = crate::text::chars_of(raw_source);
    let mut count: usize = 0;
    let mut offset: usize = 0;
    let mut i: usize = 0;
    proof {
        assert(cs@.skip(0) =~= cs@);
        lemma_newlines_before_bound(cs@, byte_index as int);
    }
    while i < cs.len() && offset < byte_index
        invariant
            cs@ == raw_source@,
            0 <= i <= cs@.len(),
            count <= i,
            count + newlines_before(cs@.skip(i as int), byte_index - offset) == newlines_before(
                cs@,
                byte_index as int,
            ),
            offset <= byte_index,
        decreases cs@.len() - i,
    {
        let c = cs[i];
        let ghost rest = cs@.skip(i as int);
        assert(rest.drop_first() =~= cs@.skip(i + 1));
        assert(rest[0] == c);
        if c == '\n' {
            count = count + 1;
        }
        let len = char_utf8_len(c);
        if byte_index - offset <= len {
            proof {
                assert(newlines_before(cs@.skip(i + 1), byte_index - offset - len) == 0);
            }
            return count;
        }
        offset = offset + len;
        i = i + 1;
    }
    proof {
        if i == cs.len() {
            assert(cs@.skip(i as int).len() == 0);
        }
    }
    count
}

/// The colour numbers of source lines: lines get consecutive numbers from
/// zero in the order in which they first occur.
pub open spec fn line_colors(lines: Seq<Option<usize>>) -> Map<usize, usize>
    decreases lines.len(),
{
    if lines.len() == 0 {
        Map::empty()
    } else {
        let prev = line_colors(lines.drop_last());
        match lines.last() {
            Some(idx) => if prev.contains_key(idx) {
                prev
            } else {
                prev.insert(idx, prev.dom().len() as usize)
            },
            None => prev,
        }
    }
}

/// The source line of each instruction.
pub open spec fn source_lines(instructions: Seq<UiIrInstruction>) -> Seq<Option<usize>> {
    instructions.map_values(|i: UiIrInstruction| i.source_line_index)
}

/// The colours are `0 .. n` for `n` distinct lines, one per line.
pub proof fn lemma_line_colors_distinct(lines: Seq<Option<usize>>)
    requires
        lines.len() <= usize::MAX,
    ensures
        line_colors(lines).dom().finite(),
        line_colors(lines).dom().len() <= lines.len(),
        forall|k: usize| #[trigger] line_colors(lines).contains_key(k) ==> line_colors(lines)[k]
            < line_colors(lines).dom().len(),
        forall|a: usize, b: usize|
            #![trigger line_colors(lines)[a], line_colors(lines)[b]]
            line_colors(lines).contains_key(a) && line_colors(lines).contains_key(b) && a != b
                ==> line_colors(lines)[a] != line_colors(lines)[b],
        forall|k: usize| #[trigger]
            line_colors(lines).contains_key(k) <==> lines.contains(Some(k)),
    decreases lines.len(),
{
    if lines.len() > 0 {
        let prev_lines = lines.drop_last();
        lemma_line_colors_distinct(prev_lines);
        let prev = line_colors(prev_lines);
        assert forall|k: usize| #[trigger]
            line_colors(lines).contains_key(k) <==> lines.contains(Some(k)) by {
            if lines.contains(Some(k)) {
                let j = choose|j: int| 0 <= j < lines.len() && lines[j] == Some(k);
                if j < lines.len() - 1 {
                    assert(prev_lines[j] == Some(k));
                }
            }
            if prev_lines.contains(Some(k)) {
                let j = choose|j: int| 0 <= j < prev_lines.len() && prev_lines[j] == Some(k);
                assert(lines[j] == Some(k));
            }
        }
        if let Some(idx) = lines.last() {
            if !prev.contains_key(idx) {
                assert(prev.dom().insert(idx).len() == prev.dom().len() + 1);
                let cur = line_colors(lines);
                assert(cur == prev.insert(idx, prev.dom().len() as usize));
                assert(prev.dom().len() < usize::MAX);
                assert forall|a: usize, b: usize|
                    cur.contains_key(a) && cur.contains_key(b) && a != b implies #[trigger] cur[a]
                    != #[trigger] cur[b] by {
                    if a != idx && b != idx {
                        assert(prev[a] != prev[b]);
                    } else if a == idx {
                        assert(prev[b] < prev.dom().len());
                    } else {
                        assert(prev[a] < prev.dom().len());
                    }
                }
            }
        }
    }
}

/// Gives the source lines of the instructions colour numbers: consecutive
/// numbers from zero, in the order in which the lines first occur.
pub fn build_line_colors(instructions: &[UiIrInstruction]) -> (m: HashMap<usize, usize>)
    requires
        instructions@.len() < usize::MAX,
    ensures
        m@ == line_colors(source_lines(instructions@)),
{
    broadcast use vstd::std_specs::hash::group_hash_axioms;

    let ghost lines = source_lines(instructions@);
    let mut map: HashMap<usize, usize> = HashMap::new();
    let mut offset: usize = 0;
    let mut i: usize = 0;
    proof {
        assert(lines.take(0) =~= Seq::<Option<usize>>::empty());
    }
    while i < instructions.len()
        invariant
            lines == source_lines(instructions@),
            0 <= i <= instructions@.len(),
            instructions@.len() < usize::MAX,
            map@ == line_colors(lines.take(i as int)),
            offset == map@.dom().len(),
            offset <= i,
        decreases instructions@.len() - i,
    {
        proof {
            lemma_line_colors_distinct(lines.take(i as int));
            assert(lines.take(i + 1).drop_last() =~= lines.take(i as int));
            assert(lines.take(i + 1).last() == instructions@[i as int].source_line_index);
            lemma_line_colors_distinct(lines.take(i + 1));
        }
        if let Some(idx) = instructions[i].source_line_index {
            if !map.contains_key(&idx) {
                map.insert(idx, offset);
                offset = offset + 1;
            }
        }
        i = i + 1;
    }
    proof {
        assert(lines.take(i as int) =~= lines);
    }
    map
}


/// How an element is shown: text and operators as they are, variables,
/// values, functions and blocks as `var_N`, `val_N`, `fn_N`, `block_N`.
pub open spec fn element_text(e: IrElement) -> Seq<char> {
    match e {
        IrElement::Text(t) => t@,
        IrElement::Variable { id } => seq!['v', 'a', 'r', '_'] + decimal(id as nat),
        IrElement::Value { id } => seq!['v', 'a', 'l', '_'] + decimal(id as nat),
        IrElement::Function { id } => seq!['f', 'n', '_'] + decimal(id as nat),
        IrElement::Operator(op) => op@,
        IrElement::Block(id) => seq!['b', 'l', 'o', 'c', 'k', '_'] + decimal(id as nat),
    }
}

impl IrElement {
    /// The element as text (see `element_text`).
    pub fn stringify(&self) -> (r: String)
        ensures
            r@ == element_text(*self),
    {
        match self {
            IrElement::Text(t) => t.clone(),
            IrElement::Operator(op) => op.clone(),
            IrElement::Variable { id } => {
                let mut out: Vec<char> = vec!['v', 'a', 'r', '_'];
                push_decimal(&mut out, *id as u128);
                string_of(out.as_slice())
            },
            IrElement::Value { id } => {
                let mut out: Vec<char> = vec!['v', 'a', 'l', '_'];
                push_decimal(&mut out, *id as u128);
                string_of(out.as_slice())
            },
            IrElement::Function { id } => {
                let mut out: Vec<char> = vec!['f', 'n', '_'];
                push_decimal(&mut out, *id as u128);
                string_of(out.as_slice())
            },
            IrElement::Block(id) => {
                let mut out: Vec<char> = vec!['b', 'l', 'o', 'c', 'k', '_'];
                push_decimal(&mut out, *id as u128);
                string_of(out.as_slice())
            },
        }
    }
}


/// What an element shows, as plain values.
pub enum ElementModel {
    Text(Seq<char>),
    Variable(usize),
    Value(usize),
    Function(usize),
    Operator(Seq<char>),
    Block(usize),
}

pub open spec fn model(e: IrElement) -> ElementModel {
    match e {
        IrElement::Text(t) => ElementModel::Text(t@),
        IrElement::Variable { id } => ElementModel::Variable(id),
        IrElement::Value { id } => ElementModel::Value(id),
        IrElement::Function { id } => ElementModel::Function(id),
        IrElement::Operator(o) => ElementModel::Operator(o@),
        IrElement::Block(id) => ElementModel::Block(id),
    }
}

pub open spec fn models(es: Seq<IrElement>) -> Seq<ElementModel> {
    es.map_values(|e: IrElement| model(e))
}

/// The name of a binary operator.
pub open spec fn operator_name(op: Operator) -> Seq<char> {
    match op {
        Operator::Add => "Add"@,
        Operator::Sub => "Sub"@,
        Operator::Mul => "Mul"@,
        Operator::Div => "Div"@,
        Operator::Mod => "Mod"@,
        Operator::Eq => "Eq"@,
        Operator::NEq => "NEq"@,
        Operator::Gr => "Gr"@,
        Operator::Le => "Le"@,
        Operator::GrEq => "GrEq"@,
        Operator::LeEq => "LeEq"@,
        Operator::And => "And"@,
        Operator::Or => "Or"@,
        Operator::Assign => "Assign"@,
        Operator::AddAssign => "AddAssign"@,
        Operator::SubAssign => "SubAssign"@,
        Operator::MulAssign => "MulAssign"@,
        Operator::DivAssign => "DivAssign"@,
        Operator::ModAssign => "ModAssign"@,
    }
}

/// The name of a prefix operator.
pub open spec fn unary_name(op: UnaryOp) -> Seq<char> {
    match op {
        UnaryOp::Sub => "Sub"@,
        UnaryOp::Neg => "Neg"@,
        UnaryOp::Ref => "Ref"@,
        UnaryOp::Deref => "Deref"@,
    }
}

/// An object: its kind and its index, as in `Function(3)`.
pub open spec fn object_text(o: AnyObjectKey) -> Seq<char> {
    let (kind, i) = match o {
        AnyObjectKey::Import(i) => ("Import"@, i),
        AnyObjectKey::Const(i) => ("Const"@, i),
        AnyObjectKey::Type(i) => ("Type"@, i),
        AnyObjectKey::Trait(i) => ("Trait"@, i),
        AnyObjectKey::Component(i) => ("Component"@, i),
        AnyObjectKey::Function(i) => ("Function"@, i),
        AnyObjectKey::Resource(i) => ("Resource"@, i),
    };
    kind + seq!['('] + decimal(i as nat) + seq![')']
}

/// The arguments of a call, separated by `, `.
pub open spec fn argument_models(args: Seq<usize>) -> Seq<ElementModel>
    decreases args.len(),
{
    if args.len() == 0 {
        seq![]
    } else if args.len() == 1 {
        seq![ElementModel::Value(args[0])]
    } else {
        argument_models(args.drop_last()) + seq![ElementModel::Text(", "@), ElementModel::Value(args.last())]
    }
}

/// The elements that show an instruction: the result, `=`, and the
/// operation with its operands.
pub open spec fn instruction_models(i: Instruction) -> Seq<ElementModel> {
    match i {
        Instruction::LoadConst { src, dst } => seq![
            ElementModel::Value(dst),
            ElementModel::Text(" = const "@),
            ElementModel::Text("key_"@ + decimal(src as nat)),
        ],
        Instruction::BinOp { op, l, r, dst, .. } => seq![
            ElementModel::Value(dst),
            ElementModel::Text(" = "@),
            ElementModel::Value(l),
            ElementModel::Operator(seq![' '] + operator_name(op) + seq![' ']),
            ElementModel::Value(r),
        ],
        Instruction::UnaryOp { op, src, dst } => seq![
            ElementModel::Value(dst),
            ElementModel::Text(" = "@),
            ElementModel::Operator(unary_name(op) + seq![' ']),
            ElementModel::Value(src),
        ],
        Instruction::StoreVar { dst, src } => seq![
            ElementModel::Variable(dst),
            ElementModel::Text(" = "@),
            ElementModel::Value(src),
        ],
        Instruction::LoadVar { src, dst } => seq![
            ElementModel::Value(dst),
            ElementModel::Text(" = "@),
            ElementModel::Variable(src),
        ],
        Instruction::Call { fun, arguments, result } => seq![
            ElementModel::Value(result),
            ElementModel::Text(" = call "@),
            ElementModel::Function(fun),
            ElementModel::Text("("@),
        ] + argument_models(arguments@) + seq![ElementModel::Text(")"@)],
        Instruction::AddressOfObj { obj, dst } => seq![
            ElementModel::Value(dst),
            ElementModel::Text(" = ref obj "@ + object_text(obj)),
        ],
        Instruction::AddressOfFun { fun, dst } => seq![
            ElementModel::Value(dst),
            ElementModel::Text(" = ref fun "@),
            ElementModel::Function(fun),
        ],
        Instruction::AddressOfVar { var, dst } => seq![
            ElementModel::Value(dst),
            ElementModel::Text(" = ref var "@),
            ElementModel::Variable(var),
        ],
        Instruction::AddressOfVal { val, dst } => seq![
            ElementModel::Value(dst),
            ElementModel::Text(" = ref val "@),
            ElementModel::Value(val),
        ],
        Instruction::Deref { src, dst } => seq![
            ElementModel::Value(dst),
            ElementModel::Text(" = deref "@),
            ElementModel::Value(src),
        ],
    }
}

/// The elements that show a terminator.
pub open spec fn terminator_models(t: Terminator) -> Seq<ElementModel> {
    match t {
        Terminator::Return(Some(v)) => seq![ElementModel::Text("ret "@), ElementModel::Value(v)],
        Terminator::Return(None) => seq![ElementModel::Text("ret"@)],
        Terminator::Jump(b, Some(v)) => seq![
            ElementModel::Text("jmp "@),
            ElementModel::Block(b),
            ElementModel::Text(" ("@),
            ElementModel::Value(v),
            ElementModel::Text(")"@),
        ],
        Terminator::Jump(b, None) => seq![ElementModel::Text("jmp "@), ElementModel::Block(b)],
        Terminator::Branch { condition, then_block, else_block } => seq![
            ElementModel::Text("br "@),
            ElementModel::Value(condition),
            ElementModel::Text(", "@),
            ElementModel::Block(then_block),
            ElementModel::Text(", "@),
            ElementModel::Block(else_block),
        ],
        Terminator::Unreachable => seq![ElementModel::Text("unreachable"@)],
        Terminator::Exit(code) => seq![ElementModel::Text("exit "@ + decimal(code as nat))],
    }
}

pub(crate) fn text(s: &str) -> (e: IrElement)
    ensures
        model(e) == ElementModel::Text(s@),
{
    IrElement::Text(s.to_owned())
}

fn operator_str(op: Operator) -> (s: &'static str)
    ensures
        s@ == operator_name(op),
{
    match op {
        Operator::Add => "Add",
        Operator::Sub => "Sub",
        Operator::Mul => "Mul",
        Operator::Div => "Div",
        Operator::Mod => "Mod",
        Operator::Eq => "Eq",
        Operator::NEq => "NEq",
        Operator::Gr => "Gr",
        Operator::Le => "Le",
        Operator::GrEq => "GrEq",
        Operator::LeEq => "LeEq",
        Operator::And => "And",
        Operator::Or => "Or",
        Operator::Assign => "Assign",
        Operator::AddAssign => "AddAssign",
        Operator::SubAssign => "SubAssign",
        Operator::MulAssign => "MulAssign",
        Operator::DivAssign => "DivAssign",
        Operator::ModAssign => "ModAssign",
    }
}

fn unary_str(op: UnaryOp) -> (s: &'static str)
    ensures
        s@ == unary_name(op),
{
    match op {
        UnaryOp::Sub => "Sub",
        UnaryOp::Neg => "Neg",
        UnaryOp::Ref => "Ref",
        UnaryOp::Deref => "Deref",
    }
}

fn object_chars(out: &mut Vec<char>, o: AnyObjectKey)
    ensures
        final(out)@ == old(out)@ + object_text(o),
{
    let (kind, i) = match o {
        AnyObjectKey::Import(i) => ("Import", i),
        AnyObjectKey::Const(i) => ("Const", i),
        AnyObjectKey::Type(i) => ("Type", i),
        AnyObjectKey::Trait(i) => ("Trait", i),
        AnyObjectKey::Component(i) => ("Component", i),
        AnyObjectKey::Function(i) => ("Function", i),
        AnyObjectKey::Resource(i) => ("Resource", i),
    };
    let ghost start = out@;
    push_str(out, kind);
    out.push('(');
    push_decimal(out, i as u128);
    out.push(')');
    assert(out@ =~= start + object_text(o));
}

/// The elements that show an instruction (see `instruction_models`).
pub fn generate_instr_elements(instr: &Instruction) -> (r: Vec<IrElement>)
    ensures
        models(r@) == instruction_models(*instr),
{
    let r: Vec<IrElement> = match instr {
        Instruction::LoadConst { src, dst } => {
            let mut key: Vec<char> = Vec::new();
            push_str(&mut key, "key_");
            push_decimal(&mut key, *src as u128);
            let v = vec![IrElement::Value { id: *dst }, text(" = const "), IrElement::Text(string_of(key.as_slice()))];
            assert(models(v@) =~= instruction_models(*instr));
            v
        },
        Instruction::BinOp { op, l, r, dst, .. } => {
            let mut name: Vec<char> = vec![' '];
            push_str(&mut name, operator_str(*op));
            name.push(' ');
            let v = vec![
                IrElement::Value { id: *dst },
                text(" = "),
                IrElement::Value { id: *l },
                IrElement::Operator(string_of(name.as_slice())),
                IrElement::Value { id: *r },
            ];
            assert(name@ =~= seq![' '] + operator_name(*op) + seq![' ']);
            assert(models(v@) =~= instruction_models(*instr));
            v
        },
        Instruction::UnaryOp { op, src, dst } => {
            let mut name: Vec<char> = Vec::new();
            push_str(&mut name, unary_str(*op));
            name.push(' ');
            let v = vec![
                IrElement::Value { id: *dst },
                text(" = "),
                IrElement::Operator(string_of(name.as_slice())),
                IrElement::Value { id: *src },
            ];
            assert(name@ =~= unary_name(*op) + seq![' ']);
            assert(models(v@) =~= instruction_models(*instr));
            v
        },
        Instruction::StoreVar { dst, src } => {
            let v = vec![IrElement::Variable { id: *dst }, text(" = "), IrElement::Value { id: *src }];
            assert(models(v@) =~= instruction_models(*instr));
            v
        },
        Instruction::LoadVar { src, dst } => {
            let v = vec![IrElement::Value { id: *dst }, text(" = "), IrElement::Variable { id: *src }];
            assert(models(v@) =~= instruction_models(*instr));
            v
        },
        Instruction::Call { fun, arguments, result } => {
            let mut elements = vec![
                IrElement::Value { id: *result },
                text(" = call "),
                IrElement::Function { id: *fun },
                text("("),
            ];
            let ghost head = models(elements@);
            let mut i: usize = 0;
            while i < arguments.len()
                invariant
                    i <= arguments@.len(),
                    models(elements@) == head + argument_models(arguments@.take(i as int)),
                decreases arguments@.len() - i,
            {
                let ghost prev = elements@;
                if i > 0 {
                    elements.push(text(", "));
                }
                elements.push(IrElement::Value { id: arguments[i] });
                proof {
                    let t = arguments@.take(i + 1);
                    assert(t.drop_last() =~= arguments@.take(i as int));
                    assert(t.last() == arguments@[i as int]);
                    if i == 0 {
                        assert(models(elements@) =~= models(prev) + seq![ElementModel::Value(arguments@[0])]);
                    } else {
                        assert(models(elements@) =~= models(prev) + seq![
                            ElementModel::Text(", "@),
                            ElementModel::Value(arguments@[i as int]),
                        ]);
                    }
                    assert(models(elements@) =~= head + argument_models(t));
                }
                i = i + 1;
            }
            let ghost before = elements@;
            elements.push(text(")"));
            assert(arguments@.take(arguments@.len() as int) =~= arguments@);
            assert(models(elements@) =~= models(before) + seq![ElementModel::Text(")"@)]);
            assert(models(elements@) =~= instruction_models(*instr));
            elements
        },
        Instruction::AddressOfObj { obj, dst } => {
            let mut t: Vec<char> = Vec::new();
            push_str(&mut t, " = ref obj ");
            object_chars(&mut t, *obj);
            let v = vec![IrElement::Value { id: *dst }, IrElement::Text(string_of(t.as_slice()))];
            assert(models(v@) =~= instruction_models(*instr));
            v
        },
        Instruction::AddressOfFun { fun, dst } => {
            let v = vec![IrElement::Value { id: *dst }, text(" = ref fun "), IrElement::Function { id: *fun }];
            assert(models(v@) =~= instruction_models(*instr));
            v
        },
        Instruction::AddressOfVar { var, dst } => {
            let v = vec![IrElement::Value { id: *dst }, text(" = ref var "), IrElement::Variable { id: *var }];
            assert(models(v@) =~= instruction_models(*instr));
            v
        },
        Instruction::AddressOfVal { val, dst } => {
            let v = vec![IrElement::Value { id: *dst }, text(" = ref val "), IrElement::Value { id: *val }];
            assert(models(v@) =~= instruction_models(*instr));
            v
        },
        Instruction::Deref { src, dst } => {
            let v = vec![IrElement::Value { id: *dst }, text(" = deref "), IrElement::Value { id: *src }];
            assert(models(v@) =~= instruction_models(*instr));
            v
        },
    };
    assert(models(r@) =~= instruction_models(*instr));
    r
}

/// The elements that show a terminator (see `terminator_models`).
pub fn generate_terminator_elements(term: &Terminator) -> (r: Vec<IrElement>)
    ensures
        models(r@) == terminator_models(*term),
{
    let r: Vec<IrElement> = match *term {
        Terminator::Return(Some(val)) => vec![text("ret "), IrElement::Value { id: val }],
        Terminator::Return(None) => vec![text("ret")],
        Terminator::Jump(blk, Some(val)) => vec![
            text("jmp "),
            IrElement::Block(blk),
            text(" ("),
            IrElement::Value { id: val },
            text(")"),
        ],
        Terminator::Jump(blk, None) => vec![text("jmp "), IrElement::Block(blk)],
        Terminator::Branch { condition, then_block, else_block } => vec![
            text("br "),
            IrElement::Value { id: condition },
            text(", "),
            IrElement::Block(then_block),
            text(", "),
            IrElement::Block(else_block),
        ],
        Terminator::Unreachable => vec![text("unreachable")],
        Terminator::Exit(code) => {
            let mut t: Vec<char> = Vec::new();
            push_str(&mut t, "exit ");
            push_decimal(&mut t, code as u128);
            vec![IrElement::Text(string_of(t.as_slice()))]
        },
    };
    assert(models(r@) =~= terminator_models(*term));
    r
}

/// The one-line description of an instruction.
pub open spec fn instruction_about(instr: Instruction) -> Seq<char> {
    match instr {
        Instruction::LoadConst { .. } => "Load a constant value"@,
        Instruction::BinOp { .. } => "Binary arithmetic or logical operation"@,
        Instruction::UnaryOp { .. } => "Unary arithmetic or logical operation"@,
        Instruction::StoreVar { .. } => "Store a value into a variable"@,
        Instruction::LoadVar { .. } => "Load a value from a variable"@,
        Instruction::Call { .. } => "Execute a function call"@,
        Instruction::AddressOfObj { .. } => "Get the memory address of an object"@,
        Instruction::AddressOfFun { .. } => "Get the memory address of a function"@,
        Instruction::AddressOfVar { .. } => "Get the memory address of a variable"@,
        Instruction::AddressOfVal { .. } => "Get the memory address of a value"@,
        Instruction::Deref { .. } => "Dereference a pointer to a value"@,
    }
}

/// The one-line description of a terminator.
pub open spec fn terminator_about(term: Terminator) -> Seq<char> {
    match term {
        Terminator::Return(_) => "Return from function"@,
        Terminator::Jump(..) => "Jump to block"@,
        Terminator::Branch { .. } => "Conditional branch"@,
        Terminator::Unreachable => "Unreachable path"@,
        Terminator::Exit(_) => "Terminate execution"@,
    }
}

/// A one-line description of an instruction.
pub fn instruction_description(instr: &Instruction) -> (s: &'static str)
    ensures
        s@ == instruction_about(*instr),
{
    match instr {
        Instruction::LoadConst { .. } => "Load a constant value",
        Instruction::BinOp { .. } => "Binary arithmetic or logical operation",
        Instruction::UnaryOp { .. } => "Unary arithmetic or logical operation",
        Instruction::StoreVar { .. } => "Store a value into a variable",
        Instruction::LoadVar { .. } => "Load a value from a variable",
        Instruction::Call { .. } => "Execute a function call",
        Instruction::AddressOfObj { .. } => "Get the memory address of an object",
        Instruction::AddressOfFun { .. } => "Get the memory address of a function",
        Instruction::AddressOfVar { .. } => "Get the memory address of a variable",
        Instruction::AddressOfVal { .. } => "Get the memory address of a value",
        Instruction::Deref { .. } => "Dereference a pointer to a value",
    }
}

/// A one-line description of a terminator.
pub fn terminator_description(term: &Terminator) -> (s: &'static str)
    ensures
        s@ == terminator_about(*term),
{
    match term {
        Terminator::Return(_) => "Return from function",
        Terminator::Jump(..) => "Jump to block",
        Terminator::Branch { .. } => "Conditional branch",
        Terminator::Unreachable => "Unreachable path",
        Terminator::Exit(_) => "Terminate execution",
    }
}

} // verus!
