//! What the compiler explorer shows of one lowered function: its source
//! lines, its variables and values with their types, and the listing of
//! its blocks.

use crate::explorer::{
    ElementModel, InstructionKind, IrElement, UiIrInstruction, UiValue, UiVariable, byte_to_line_index,
    generate_instr_elements, generate_terminator_elements, instruction_about, instruction_description,
    instruction_models, models, newlines_before, terminator_about, terminator_description, terminator_models, text,
};
use crate::ir::{BasicBlock, FunctionIr, Instruction, Terminator};
use crate::literal::string_of;
use crate::span::Span;
use crate::types::{Types, float_free, type_text, valid_key, wf};
use vstd::prelude::*;

verus! {

/// What the explorer shows of a lowered function: the lines of its module's
/// source, its variables, its values, the listing of its blocks, and the
/// colour it is drawn in.
#[derive(Debug, Clone)]
pub struct ObjectDetails {
    pub source_lines: Vec<String>,
    pub ir_variables: Vec<UiVariable>,
    pub ir_values: Vec<UiValue>,
    pub ir_instructions: Vec<UiIrInstruction>,
    pub color_index: usize,
}

/// A line of the listing of a function.
pub enum ListingLine {
    /// The label of block `block`, with its parameter.
    Label { block: usize, parameter: Option<usize> },
    /// An instruction of block `block`, read at byte `at` of the source.
    Instruction { block: usize, instruction: Instruction, at: usize },
    /// The terminator of block `block`.
    Terminator { block: usize, terminator: Terminator },
}

/// The lines of block `k`: its label, its instructions in order, and its
/// terminator if it has one.
pub open spec fn block_lines(b: BasicBlock, k: usize) -> Seq<ListingLine> {
    seq![ListingLine::Label { block: k, parameter: b.parameter }] + b.instructions@.map_values(
        |s: Span<Instruction>| ListingLine::Instruction { block: k, instruction: *s.inner, at: s.location.index },
    ) + match b.terminator {
        Some(t) => seq![ListingLine::Terminator { block: k, terminator: t }],
        None => Seq::empty(),
    }
}

/// The lines of the first `n` blocks, block after block.
pub open spec fn listing(blocks: Seq<BasicBlock>, n: nat) -> Seq<ListingLine>
    decreases n,
{
    if n == 0 || n > blocks.len() {
        Seq::empty()
    } else {
        listing(blocks, (n - 1) as nat) + block_lines(blocks[n - 1], (n - 1) as usize)
    }
}

/// How a block label is shown: `block_N`, then ` (val_M)` for a parameter.
pub open spec fn label_models(block: usize, parameter: Option<usize>) -> Seq<ElementModel> {
    match parameter {
        None => seq![ElementModel::Block(block)],
        Some(p) => seq![
            ElementModel::Block(block),
            ElementModel::Text(" ("@),
            ElementModel::Value(p),
            ElementModel::Text(")"@),
        ],
    }
}

/// The row `u` shows the listing line `line`: its elements, the source line
/// of an instruction (counted in `source`), its block, its description and
/// its kind.
pub open spec fn shows(u: UiIrInstruction, line: ListingLine, source: Seq<char>) -> bool {
    match line {
        ListingLine::Label { block, parameter } => {
            &&& models(u.elements@) == label_models(block, parameter)
            &&& u.source_line_index is None
            &&& u.block_idx == block
            &&& u.description@ == "Block Label"@
            &&& u.kind == InstructionKind::BlockLabel
        },
        ListingLine::Instruction { block, instruction, at } => {
            &&& models(u.elements@) == instruction_models(instruction)
            &&& u.source_line_index == Some(newlines_before(source, at as int) as usize)
            &&& u.block_idx == block
            &&& u.description@ == instruction_about(instruction)
            &&& u.kind == InstructionKind::Normal
        },
        ListingLine::Terminator { block, terminator } => {
            &&& models(u.elements@) == terminator_models(terminator)
            &&& u.source_line_index is None
            &&& u.block_idx == block
            &&& u.description@ == terminator_about(terminator)
            &&& u.kind == InstructionKind::Terminator
        },
    }
}

/// A text, owned.
fn owned(s: &str) -> (r: String)
    ensures
        r@ == s@,
{
    let cs: Vec<char> = crate::text::chars_of(s);
    string_of(cs.as_slice())
}

/// The rows showing the function's blocks (see `listing` and `shows`).
pub fn ir_listing(ir: &FunctionIr, raw_source: &str) -> (r: Vec<UiIrInstruction>)
    ensures
        r@.len() == listing(ir.blocks@, ir.blocks@.len()).len(),
        forall|k: int|
            0 <= k < r@.len() ==> shows(#[trigger] r@[k], listing(ir.blocks@, ir.blocks@.len())[k], raw_source@),
{
    let mut rows: Vec<UiIrInstruction> = Vec::new();
    let mut b: usize = 0;
    while b < ir.blocks.len()
        invariant
            0 <= b <= ir.blocks@.len(),
            rows@.len() == listing(ir.blocks@, b as nat).len(),
            forall|k: int| 0 <= k < rows@.len() ==> shows(#[trigger] rows@[k], listing(ir.blocks@, b as nat)[k], raw_source@),
        decreases ir.blocks@.len() - b,
    {
        let block = &ir.blocks[b];
        let ghost before = listing(ir.blocks@, b as nat);
        let ghost lines = block_lines(*block, b);
        let elements: Vec<IrElement> = match block.parameter {
            None => vec![IrElement::Block(b)],
            Some(param) => vec![IrElement::Block(b), text(" ("), IrElement::Value { id: param }, text(")")],
        };
        proof {
            assert(models(elements@) =~= label_models(b, block.parameter));
        }
        rows.push(
            UiIrInstruction {
                elements,
                source_line_index: None,
                block_idx: b,
                description: owned("Block Label"),
                kind: InstructionKind::BlockLabel,
            },
        );
        let mut i: usize = 0;
        while i < block.instructions.len()
            invariant
                0 <= b < ir.blocks@.len(),
                *block == ir.blocks@[b as int],
                before == listing(ir.blocks@, b as nat),
                lines == block_lines(*block, b),
                0 <= i <= block.instructions@.len(),
                rows@.len() == before.len() + 1 + i,
                forall|k: int|
                    0 <= k < rows@.len() ==> shows(#[trigger] rows@[k], (before + lines)[k], raw_source@),
            decreases block.instructions@.len() - i,
        {
            let wrapped = &block.instructions[i];
            let instr: &Instruction = &wrapped.inner;
            let row = UiIrInstruction {
                elements: generate_instr_elements(instr),
                source_line_index: Some(byte_to_line_index(raw_source, wrapped.location.index)),
                block_idx: b,
                description: owned(instruction_description(instr)),
                kind: InstructionKind::Normal,
            };
            proof {
                assert((before + lines)[before.len() + 1 + i] == ListingLine::Instruction {
                    block: b,
                    instruction: *instr,
                    at: wrapped.location.index,
                });
            }
            rows.push(row);
            i = i + 1;
        }
        match block.terminator {
            Some(term) => {
                let row = UiIrInstruction {
                    elements: generate_terminator_elements(&term),
                    source_line_index: None,
                    block_idx: b,
                    description: owned(terminator_description(&term)),
                    kind: InstructionKind::Terminator,
                };
                proof {
                    assert((before + lines)[(before.len() + 1 + block.instructions@.len()) as int] == ListingLine::Terminator {
                        block: b,
                        terminator: term,
                    });
                }
                rows.push(row);
            },
            None => {},
        }
        proof {
            assert(listing(ir.blocks@, (b + 1) as nat) == before + lines);
        }
        b = b + 1;
    }
    rows
}

/// The variables of the function, each with its index, its name and its
/// type as written.
pub fn ui_variables(ir: &FunctionIr, types: &Types) -> (r: Vec<UiVariable>)
    requires
        wf(*types),
        float_free(*types),
        forall|i: int| 0 <= i < ir.variables@.len() ==> valid_key(*types, (#[trigger] ir.variables@[i]).ty),
    ensures
        r@.len() == ir.variables@.len(),
        forall|i: int|
            0 <= i < r@.len() ==> (#[trigger] r@[i]).id == i && r@[i].identifier@ == (*ir.variables@[i].identifier.inner)@
                && r@[i].ty@ == type_text(*types, ir.variables@[i].ty),
{
    let mut r: Vec<UiVariable> = Vec::new();
    let mut i: usize = 0;
    while i < ir.variables.len()
        invariant
            wf(*types),
            float_free(*types),
            forall|j: int| 0 <= j < ir.variables@.len() ==> valid_key(*types, (#[trigger] ir.variables@[j]).ty),
            0 <= i <= ir.variables@.len(),
            r@.len() == i,
            forall|j: int|
                0 <= j < i ==> (#[trigger] r@[j]).id == j && r@[j].identifier@ == (*ir.variables@[j].identifier.inner)@
                    && r@[j].ty@ == type_text(*types, ir.variables@[j].ty),
        decreases ir.variables@.len() - i,
    {
        let v = &ir.variables[i];
        let name: &String = &v.identifier.inner;
        r.push(UiVariable { id: i, identifier: name.clone(), ty: v.ty.stringify(types) });
        i = i + 1;
    }
    r
}

/// The values of the function, each with its index and its type as
/// written.
pub fn ui_values(ir: &FunctionIr, types: &Types) -> (r: Vec<UiValue>)
    requires
        wf(*types),
        float_free(*types),
        forall|i: int| 0 <= i < ir.values@.len() ==> valid_key(*types, (#[trigger] ir.values@[i]).ty),
    ensures
        r@.len() == ir.values@.len(),
        forall|i: int| 0 <= i < r@.len() ==> (#[trigger] r@[i]).id == i && r@[i].ty@ == type_text(*types, ir.values@[i].ty),
{
    let mut r: Vec<UiValue> = Vec::new();
    let mut i: usize = 0;
    while i < ir.values.len()
        invariant
            wf(*types),
            float_free(*types),
            forall|j: int| 0 <= j < ir.values@.len() ==> valid_key(*types, (#[trigger] ir.values@[j]).ty),
            0 <= i <= ir.values@.len(),
            r@.len() == i,
            forall|j: int| 0 <= j < i ==> (#[trigger] r@[j]).id == j && r@[j].ty@ == type_text(*types, ir.values@[j].ty),
        decreases ir.values@.len() - i,
    {
        r.push(UiValue { id: i, ty: ir.values[i].ty.stringify(types) });
        i = i + 1;
    }
    r
}

/// The index of the first line break of `s` at index `j` or later, or the
/// length of `s` if there is none.
pub open spec fn line_break(s: Seq<char>, j: int) -> int
    decreases s.len() - j,
{
    if j < 0 || j >= s.len() {
        s.len() as int
    } else if s[j] == '\n' {
        j
    } else {
        line_break(s, j + 1)
    }
}

/// A line ended by a line break, without a `\r` just before the break.
pub open spec fn without_return(line: Seq<char>) -> Seq<char> {
    if line.len() > 0 && line.last() == '\r' {
        line.drop_last()
    } else {
        line
    }
}

/// The lines of a text: the pieces between line breaks (`\n`, or `\r\n`
/// whose `\r` is dropped), the last one unless it is empty. An empty text
/// has no lines.
pub open spec fn text_lines(s: Seq<char>) -> Seq<Seq<char>>
    decreases s.len(),
{
    if s.len() == 0 {
        Seq::empty()
    } else {
        let i = line_break(s, 0);
        if i < s.len() {
            proof {
                lemma_line_break_range(s, 0);
            }
            seq![without_return(s.take(i))] + text_lines(s.skip(i + 1))
        } else {
            seq![s]
        }
    }
}

/// The first line break at or after `j` lies between `j` and the end of
/// the text.
pub proof fn lemma_line_break_range(s: Seq<char>, j: int)
    requires
        0 <= j,
    ensures
        j <= line_break(s, j) <= s.len() || (j > s.len() && line_break(s, j) == s.len()),
    decreases s.len() - j,
{
    if j < s.len() && s[j] != '\n' {
        lemma_line_break_range(s, j + 1);
    }
}

proof fn lemma_line_break(s: Seq<char>, j: int, k: int)
    requires
        0 <= j <= k <= s.len(),
        forall|m: int| j <= m < k ==> s[m] != '\n',
        k == s.len() || s[k] == '\n',
    ensures
        line_break(s, j) == k,
    decreases k - j,
{
    if j < k {
        lemma_line_break(s, j + 1, k);
    }
}

proof fn lemma_line_break_skip(s: Seq<char>, start: int, k: int)
    requires
        0 <= start <= k <= s.len(),
        forall|m: int| start <= m < k ==> s[m] != '\n',
        k == s.len() || s[k] == '\n',
    ensures
        line_break(s.skip(start), 0) == k - start,
{
    let t = s.skip(start);
    assert forall|m: int| 0 <= m < k - start implies t[m] != '\n' by {
        assert(t[m] == s[start + m]);
    }
    if k < s.len() {
        assert(t[k - start] == s[k]);
    }
    lemma_line_break(t, 0, k - start);
}

/// The lines of the source text (see `text_lines`).
pub fn source_lines(raw_source: &str) -> (r: Vec<String>)
    ensures
        r@.map_values(|l: String| l@) == text_lines(raw_source@),
{
    let cs: Vec<char> = crate::text::chars_of(raw_source);
    let ghost s = cs@;
    let mut lines: Vec<String> = Vec::new();
    let mut current: Vec<char> = Vec::new();
    let mut start: usize = 0;
    let mut i: usize = 0;
    proof {
        assert(s.skip(0) =~= s);
        assert(lines@.map_values(|l: String| l@) + text_lines(s.skip(0)) =~= text_lines(s));
    }
    while i < cs.len()
        invariant
            s == cs@,
            0 <= start <= i <= s.len(),
            current@ == s.subrange(start as int, i as int),
            forall|m: int| start <= m < i ==> s[m] != '\n',
            lines@.map_values(|l: String| l@) + text_lines(s.skip(start as int)) == text_lines(s),
        decreases s.len() - i,
    {
        if cs[i] == '\n' {
            let ghost rest = s.skip(start as int);
            proof {
                lemma_line_break_skip(s, start as int, i as int);
                assert(rest.take(i - start) =~= current@);
                assert(rest.skip(i - start + 1) =~= s.skip(i + 1));
            }
            let line = if current.len() > 0 && current[current.len() - 1] == '\r' {
                string_of(&current.as_slice()[0..current.len() - 1])
            } else {
                string_of(current.as_slice())
            };
            proof {
                if current@.len() > 0 && current@.last() == '\r' {
                    assert(current@.subrange(0, current@.len() - 1) =~= current@.drop_last());
                }
                assert(line@ == without_return(rest.take(i - start)));
            }
            let ghost before = lines@.map_values(|l: String| l@);
            lines.push(line);
            proof {
                assert(lines@.map_values(|l: String| l@) =~= before.push(line@));
                assert(text_lines(rest) =~= seq![line@] + text_lines(s.skip(i + 1)));
                assert(before + text_lines(rest) =~= lines@.map_values(|l: String| l@) + text_lines(s.skip(i + 1)));
            }
            current = Vec::new();
            start = i + 1;
        } else {
            current.push(cs[i]);
        }
        i = i + 1;
    }
    let ghost rest = s.skip(start as int);
    if current.len() > 0 {
        proof {
            lemma_line_break_skip(s, start as int, s.len() as int);
            assert(rest =~= current@);
        }
        let ghost before = lines@.map_values(|l: String| l@);
        let line = string_of(current.as_slice());
        lines.push(line);
        proof {
            assert(lines@.map_values(|l: String| l@) =~= before.push(line@));
            assert(text_lines(rest) =~= seq![line@]);
            assert(before + text_lines(rest) =~= lines@.map_values(|l: String| l@));
        }
    } else {
        proof {
            assert(rest.len() == 0);
            assert(lines@.map_values(|l: String| l@) + text_lines(rest) =~= lines@.map_values(|l: String| l@));
        }
    }
    lines
}

/// A copy of a list of texts.
fn copy_lines(v: &Vec<String>) -> (r: Vec<String>)
    ensures
        r@ == v@,
{
    let mut r: Vec<String> = Vec::new();
    let mut i: usize = 0;
    while i < v.len()
        invariant
            0 <= i <= v@.len(),
            r@ == v@.take(i as int),
        decreases v@.len() - i,
    {
        r.push(v[i].clone());
        assert(r@ =~= v@.take(i + 1));
        i = i + 1;
    }
    assert(r@ =~= v@);
    r
}

impl ObjectDetails {
    /// What the explorer shows of `ir`, a function of the module whose
    /// source text is `raw_source` and whose lines are `lines`, when
    /// `shown` functions are shown already: the lines, the variables and
    /// values, the listing, and one of four colours in turn.
    pub fn of(ir: &FunctionIr, types: &Types, raw_source: &str, lines: &Vec<String>, shown: usize) -> (d: ObjectDetails)
        requires
            wf(*types),
            float_free(*types),
            forall|i: int| 0 <= i < ir.variables@.len() ==> valid_key(*types, (#[trigger] ir.variables@[i]).ty),
            forall|i: int| 0 <= i < ir.values@.len() ==> valid_key(*types, (#[trigger] ir.values@[i]).ty),
        ensures
            d.source_lines@ == lines@,
            d.ir_variables@.len() == ir.variables@.len(),
            forall|i: int|
                0 <= i < d.ir_variables@.len() ==> (#[trigger] d.ir_variables@[i]).id == i && d.ir_variables@[i].identifier@
                    == (*ir.variables@[i].identifier.inner)@ && d.ir_variables@[i].ty@ == type_text(*types, ir.variables@[i].ty),
            d.ir_values@.len() == ir.values@.len(),
            forall|i: int|
                0 <= i < d.ir_values@.len() ==> (#[trigger] d.ir_values@[i]).id == i && d.ir_values@[i].ty@ == type_text(
                    *types,
                    ir.values@[i].ty,
                ),
            d.ir_instructions@.len() == listing(ir.blocks@, ir.blocks@.len()).len(),
            forall|k: int|
                0 <= k < d.ir_instructions@.len() ==> shows(
                    #[trigger] d.ir_instructions@[k],
                    listing(ir.blocks@, ir.blocks@.len())[k],
                    raw_source@,
                ),
            d.color_index == shown % 4,
    {
        ObjectDetails {
            source_lines: copy_lines(lines),
            ir_variables: ui_variables(ir, types),
            ir_values: ui_values(ir, types),
            ir_instructions: ir_listing(ir, raw_source),
            color_index: shown % 4,
        }
    }
}

} // verus!
