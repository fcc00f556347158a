//! The lowered form of functions: basic blocks of instructions ending in
//! terminators, and the removal of instructions whose results are unused.

use crate::const_value::Errors;
use crate::init_state::InitState;
use crate::objects::{signature_done, AnyObject, FunctionObj};
use crate::operator::{Operator, UnaryOp};
use crate::primitive::PrimitiveType;
use crate::span::{Span, SpanIndex};
use crate::types::AnyTypeKey;
use vstd::prelude::*;

verus! {

/// Index of a basic block of a function.
pub type BlockKey = usize;

/// Index of a value of a function.
pub type ValueKey = usize;

/// Index of a variable of a function.
pub type VariableKey = usize;

/// Index of a lowered function.
pub type FunctionIrKey = usize;

/// Index of a constant.
pub type ConstValueKey = usize;

/// An object of the program: its kind and its index in that kind's table.
#[derive(Debug, Clone, Copy, PartialEq, Eq, Structural)]
pub enum AnyObjectKey {
    Import(usize),
    Const(usize),
    Type(usize),
    Trait(usize),
    Component(usize),
    Function(usize),
    Resource(usize),
}

/// A value computed by an instruction.
#[derive(Debug, Clone, Copy, PartialEq, Eq, Structural)]
pub struct Value {
    pub ty: AnyTypeKey,
    pub needs_address: bool,
    pub used: bool,
}

/// A local variable.
#[derive(Debug)]
pub struct Variable {
    pub identifier: Span<String>,
    pub ty: AnyTypeKey,
    pub value: ValueKey,
    pub used: bool,
    pub mutated: bool,
    pub needs_address: bool,
}

#[derive(Debug, Clone, PartialEq, Eq)]
pub enum Instruction {
    LoadConst { src: ConstValueKey, dst: ValueKey },
    BinOp { op: Operator, l: ValueKey, r: ValueKey, dst: ValueKey, ty: PrimitiveType },
    UnaryOp { op: UnaryOp, src: ValueKey, dst: ValueKey },
    StoreVar { dst: VariableKey, src: ValueKey },
    LoadVar { src: VariableKey, dst: ValueKey },
    Call { fun: FunctionIrKey, arguments: Vec<ValueKey>, result: ValueKey },
    AddressOfObj { obj: AnyObjectKey, dst: ValueKey },
    AddressOfFun { fun: FunctionIrKey, dst: ValueKey },
    AddressOfVar { var: VariableKey, dst: ValueKey },
    AddressOfVal { val: ValueKey, dst: ValueKey },
    Deref { src: ValueKey, dst: ValueKey },
}

#[derive(Debug, Clone, Copy, PartialEq, Eq, Structural)]
pub enum Terminator {
    Return(Option<ValueKey>),
    Jump(BlockKey, Option<ValueKey>),
    Branch { condition: ValueKey, then_block: BlockKey, else_block: BlockKey },
    Unreachable,
    Exit(u8),
}

/// A straight run of instructions and the terminator that ends it. Once
/// locked, no more instructions are added.
#[derive(Debug)]
pub struct BasicBlock {
    pub instructions: Vec<Span<Instruction>>,
    pub terminator: Option<Terminator>,
    pub instr_lock: bool,
    pub parameter: Option<ValueKey>,
}

/// The instructions of a block without their locations.
pub open spec fn instrs_of(b: BasicBlock) -> Seq<Instruction> {
    b.instructions@.map_values(|s: Span<Instruction>| *s.inner)
}

impl BasicBlock {
    pub fn instructions(&self) -> (r: &[Span<Instruction>])
        ensures
            r@ == self.instructions@,
    {
        self.instructions.as_slice()
    }

    pub fn terminator(&self) -> (r: &Option<Terminator>)
        ensures
            *r == self.terminator,
    {
        &self.terminator
    }

    /// Stops (or, with `false`, resumes) taking in instructions.
    pub fn lock_instructions(&mut self, lock: bool)
        ensures
            final(self).instr_lock == lock,
            final(self).instructions == old(self).instructions,
            final(self).terminator == old(self).terminator,
            final(self).parameter == old(self).parameter,
    {
        self.instr_lock = lock;
    }

    /// Appends `instrs`, all at `location`, unless the block is locked.
    pub fn extend(&mut self, instrs: Vec<Instruction>, location: SpanIndex)
        ensures
            old(self).instr_lock ==> final(self).instructions@ == old(self).instructions@,
            !old(self).instr_lock ==> instrs_of(*final(self)) == instrs_of(*old(self)) + instrs@,
            !old(self).instr_lock ==> final(self).instructions@.len() == old(self).instructions@.len() + instrs@.len(),
            !old(self).instr_lock ==> forall|i: int|
                old(self).instructions@.len() <= i < final(self).instructions@.len()
                    ==> (#[trigger] final(self).instructions@[i]).location == location,
            !old(self).instr_lock ==> final(self).instructions@.subrange(0, old(self).instructions@.len() as int) == old(self).instructions@,
            final(self).terminator == old(self).terminator,
            final(self).instr_lock == old(self).instr_lock,
            final(self).parameter == old(self).parameter,
    {
        if self.instr_lock {
            return;
        }
        broadcast use vstd::std_specs::vec::axiom_spec_into_iter;

        let ghost start = self.instructions@;
        let ghost all = instrs@;
        for x in it: instrs.into_iter()
            invariant
                it.seq() == all,
                self.instructions@.len() == start.len() + it.index(),
                self.instructions@.subrange(0, start.len() as int) == start,
                forall|i: int|
                    0 <= i < it.index() ==> *(#[trigger] self.instructions@[start.len() + i]).inner
                        == all[i],
                forall|i: int|
                    start.len() <= i < self.instructions@.len() ==> (#[trigger] self.instructions@[i]).location
                        == location,
                self.terminator == old(self).terminator,
                self.instr_lock == old(self).instr_lock,
                self.parameter == old(self).parameter,
                start == old(self).instructions@,
        {
            self.instructions.push(Span::new(x, location));
            proof {
                assert(self.instructions@[start.len() + it.index()] == self.instructions@.last());
            }
        }
        proof {
            assert(instrs_of(*self) =~= instrs_of(*old(self)) + all) by {
                assert forall|i: int| 0 <= i < instrs_of(*self).len() implies instrs_of(*self)[i] == (
                instrs_of(*old(self)) + all)[i] by {
                    if i < start.len() {
                        assert(self.instructions@[i] == self.instructions@.subrange(0, start.len() as int)[i]);
                    } else {
                        assert(self.instructions@[start.len() + (i - start.len())] == self.instructions@[i]);
                    }
                }
            }
        }
    }

    /// Sets the terminator, unless one is set and `overwrite` is false.
    pub fn terminate(&mut self, term: Terminator, overwrite: bool)
        ensures
            final(self).terminator == if old(self).terminator is None || overwrite {
                Some(term)
            } else {
                old(self).terminator
            },
            final(self).instructions == old(self).instructions,
            final(self).instr_lock == old(self).instr_lock,
            final(self).parameter == old(self).parameter,
    {
        if self.terminator.is_none() || overwrite {
            self.terminator = Some(term);
        }
    }
}

/// The kind of an enclosing construct that `break` and `continue` refer to.
#[derive(Debug, Clone, Copy, PartialEq, Eq, Structural)]
pub enum ControlFrameKind {
    Loop { break_block: BlockKey, continue_block: BlockKey },
}

/// An enclosing loop, with its optional label.
#[derive(Debug)]
pub struct ControlFrame {
    pub label: Option<String>,
    pub kind: ControlFrameKind,
}

/// The lowering context of a block: the function it belongs to and the
/// loops that enclose it, innermost last.
#[derive(Debug)]
pub struct BlockCtx {
    pub source: usize,
    pub control_stack: Vec<ControlFrame>,
}

/// A label as plain characters.
pub open spec fn label_view(l: Option<String>) -> Option<Seq<char>> {
    match l {
        Some(s) => Some(s@),
        None => None,
    }
}

/// The frame is one that `break`/`continue` with `label` refers to: any
/// frame for an unlabelled jump, the frames with that label otherwise.
pub open spec fn frame_matches(label: Option<String>, f: ControlFrame) -> bool {
    label is None || label_view(label) == label_view(f.label)
}

/// The innermost frame that a jump with `label` refers to.
pub open spec fn target_frame(stack: Seq<ControlFrame>, label: Option<String>) -> int {
    choose|j: int|
        0 <= j < stack.len() && frame_matches(label, #[trigger] stack[j]) && forall|k: int|
            j < k < stack.len() ==> !frame_matches(label, #[trigger] stack[k])
}

/// Some enclosing frame is one that a jump with `label` refers to.
pub open spec fn has_target(stack: Seq<ControlFrame>, label: Option<String>) -> bool {
    exists|j: int| 0 <= j < stack.len() && frame_matches(label, #[trigger] stack[j])
}

fn same_label(a: &Option<String>, b: &Option<String>) -> (r: bool)
    ensures
        r == (label_view(*a) == label_view(*b)),
{
    match (a, b) {
        (Some(x), Some(y)) => {
            let xs = crate::text::chars_of(x.as_str());
            let ys = crate::text::chars_of(y.as_str());
            crate::text::same_chars(&xs, &ys)
        },
        (None, None) => true,
        _ => false,
    }
}

impl BlockCtx {
    fn find_frame(&self, label: &Option<String>) -> (j: usize)
        requires
            has_target(self.control_stack@, *label),
        ensures
            j == target_frame(self.control_stack@, *label),
            j < self.control_stack@.len(),
    {
        let stack = &self.control_stack;
        let mut i = stack.len();
        while i > 0
            invariant
                i <= stack@.len(),
                stack@ == self.control_stack@,
                forall|k: int| i <= k < stack@.len() ==> !frame_matches(*label, #[trigger] stack@[k]),
                has_target(stack@, *label),
            decreases i,
        {
            let cf = &stack[i - 1];
            if label.is_none() || same_label(label, &cf.label) {
                let ghost j = (i - 1) as int;
                assert(frame_matches(*label, stack@[j]));
                assert(0 <= j < stack@.len() && frame_matches(*label, stack@[j]) && forall|k: int|
                    j < k < stack@.len() ==> !frame_matches(*label, #[trigger] stack@[k]));
                proof {
                    let t = target_frame(stack@, *label);
                    if t < j {
                        assert(!frame_matches(*label, stack@[j]));
                    }
                    if t > j {
                        assert(!frame_matches(*label, stack@[t]));
                    }
                }
                return i - 1;
            }
            i = i - 1;
        }
        proof {
            let j = choose|j: int| 0 <= j < stack@.len() && frame_matches(*label, #[trigger] stack@[j]);
            assert(!frame_matches(*label, stack@[j]));
        }
        vstd::pervasive::unreached()
    }

    /// The block that `break` (with `label`, if given) jumps to: that of
    /// the innermost enclosing loop with that label, or of the innermost
    /// loop for an unlabelled `break`.
    pub fn get_break_block(&self, label: &Option<String>) -> (r: Result<BlockKey, Errors>)
        requires
            has_target(self.control_stack@, *label),
        ensures
            r matches Ok(b) && self.control_stack@[target_frame(self.control_stack@, *label)].kind matches ControlFrameKind::Loop { break_block, .. } && b == break_block,
    {
        let j = self.find_frame(label);
        match self.control_stack[j].kind {
            ControlFrameKind::Loop { break_block, .. } => Ok(break_block),
        }
    }

    /// The block that `continue` (with `label`, if given) jumps to.
    pub fn get_continue_block(&self, label: &Option<String>) -> (r: Result<BlockKey, Errors>)
        requires
            has_target(self.control_stack@, *label),
        ensures
            r matches Ok(b) && self.control_stack@[target_frame(self.control_stack@, *label)].kind matches ControlFrameKind::Loop { continue_block, .. } && b == continue_block,
    {
        let j = self.find_frame(label);
        match self.control_stack[j].kind {
            ControlFrameKind::Loop { continue_block, .. } => Ok(continue_block),
        }
    }
}

/// A lowered function.
#[derive(Debug)]
pub struct FunctionIr {
    pub source: Option<usize>,
    pub type_of: Option<AnyTypeKey>,
    pub variables: Vec<Variable>,
    pub values: Vec<Value>,
    pub blocks: Vec<BasicBlock>,
    pub blocks_entry: BlockKey,
    pub substitutions: Option<usize>,
    pub void: ValueKey,
    pub returns: Option<AnyTypeKey>,
    pub parameters: Vec<(String, VariableKey)>,
}

/// The final value of a state known to be done.
pub open spec fn done_of<T, U>(s: InitState<T, U>) -> T {
    match s {
        InitState::Done(v) => v,
        _ => arbitrary(),
    }
}

/// The type of the `j`-th parameter of a function.
pub open spec fn param_type(f: FunctionObj, j: int) -> AnyTypeKey {
    done_of(f.params@[j].1)
}

/// A block with no instructions, no terminator, unlocked, without a
/// parameter.
pub open spec fn empty_block(b: BasicBlock) -> bool {
    &&& b.instructions@.len() == 0
    &&& b.terminator is None
    &&& !b.instr_lock
    &&& b.parameter is None
}

/// The values `from..` and the variables `vars_from..` are those made for
/// the parameters of `f`: the variable of parameter `j` holds the value
/// `from + j` of the parameter's type, and nothing is marked yet.
pub open spec fn parameters_made(f: FunctionObj, values: Seq<Value>, from: int, variables: Seq<Variable>, vars_from: int, parameters: Seq<(String, VariableKey)>) -> bool {
    let n = f.params@.len() as int;
    &&& values.len() == from + n
    &&& variables.len() == vars_from + n
    &&& parameters.len() == n
    &&& forall|j: int|
        0 <= j < n ==> #[trigger] values[from + j] == (Value { ty: param_type(f, j), needs_address: false, used: false })
    &&& forall|j: int|
        0 <= j < n ==> {
            let v = #[trigger] variables[vars_from + j];
            &&& v.identifier == f.params@[j].0
            &&& v.ty == param_type(f, j)
            &&& v.value == from + j
            &&& !v.used && !v.mutated && !v.needs_address
        }
    &&& forall|j: int|
        0 <= j < n ==> (#[trigger] parameters[j]).0@ == (*f.params@[j].0.inner)@ && parameters[j].1 == vars_from + j
}

fn empty_basic_block() -> (b: BasicBlock)
    ensures
        empty_block(b),
{
    BasicBlock { instructions: Vec::new(), terminator: None, instr_lock: false, parameter: None }
}

/// Adds a value and a variable for each parameter of `f`, and gives their
/// names with the variables.
fn make_parameters(f: &FunctionObj, values: &mut Vec<Value>, variables: &mut Vec<Variable>) -> (parameters: Vec<(String, VariableKey)>)
    requires
        signature_done(*f),
        old(values)@.len() + f.params@.len() <= usize::MAX,
        old(variables)@.len() + f.params@.len() <= usize::MAX,
    ensures
        final(values)@.take(old(values)@.len() as int) == old(values)@,
        final(variables)@.take(old(variables)@.len() as int) == old(variables)@,
        parameters_made(*f, final(values)@, old(values)@.len() as int, final(variables)@, old(variables)@.len() as int, parameters@),
{
    let ghost v0 = values@;
    let ghost w0 = variables@;
    let mut parameters: Vec<(String, VariableKey)> = Vec::new();
    let mut j: usize = 0;
    while j < f.params.len()
        invariant
            j <= f.params@.len(),
            signature_done(*f),
            v0.len() + f.params@.len() <= usize::MAX,
            w0.len() + f.params@.len() <= usize::MAX,
            values@.len() == v0.len() + j,
            variables@.len() == w0.len() + j,
            parameters@.len() == j,
            values@.take(v0.len() as int) == v0,
            variables@.take(w0.len() as int) == w0,
            forall|k: int|
                0 <= k < j ==> #[trigger] values@[v0.len() + k] == (Value { ty: param_type(*f, k), needs_address: false, used: false }),
            forall|k: int|
                0 <= k < j ==> {
                    let v = #[trigger] variables@[w0.len() + k];
                    &&& v.identifier == f.params@[k].0
                    &&& v.ty == param_type(*f, k)
                    &&& v.value == v0.len() + k
                    &&& !v.used && !v.mutated && !v.needs_address
                },
            forall|k: int|
                0 <= k < j ==> (#[trigger] parameters@[k]).0@ == (*f.params@[k].0.inner)@ && parameters@[k].1 == w0.len() + k,
        decreases f.params@.len() - j,
    {
        let (ident, state) = &f.params[j];
        assert(f.params@[j as int].1 is Done);
        let ty = *state.get_done();
        let value = values.len();
        values.push(Value { ty, needs_address: false, used: false });
        let variable = variables.len();
        variables.push(Variable {
            identifier: ident.duplicate(),
            ty,
            value,
            used: false,
            mutated: false,
            needs_address: false,
        });
        let name: &String = &ident.inner;
        parameters.push((name.clone(), variable));
        proof {
            assert(values@.take(v0.len() as int) =~= v0);
            assert(variables@.take(w0.len() as int) =~= w0);
        }
        j = j + 1;
    }
    parameters
}

impl FunctionIr {
    /// A function ready for lowering: one empty entry block, the value
    /// `()` first, then a value and a variable for each parameter.
    pub fn new(fun: &AnyObject<FunctionObj>, key: usize) -> (r: FunctionIr)
        requires
            signature_done(fun.data),
            fun.data.params@.len() < usize::MAX,
        ensures
            r.source == Some(key),
            r.type_of == Some(AnyTypeKey::Function(done_of(fun.data.type_of))),
            r.returns == Some(done_of(fun.data.return_type)),
            r.substitutions is None,
            r.blocks@.len() == 1,
            r.blocks_entry == 0,
            empty_block(r.blocks@[0]),
            r.void == 0,
            r.values@[0] == (Value { ty: AnyTypeKey::Primitive(PrimitiveType::Void), needs_address: false, used: false }),
            parameters_made(fun.data, r.values@, 1, r.variables@, 0, r.parameters@),
    {
        let mut blocks: Vec<BasicBlock> = Vec::new();
        blocks.push(empty_basic_block());
        let mut values: Vec<Value> = Vec::new();
        values.push(Value { ty: AnyTypeKey::Primitive(PrimitiveType::Void), needs_address: false, used: false });
        let mut variables: Vec<Variable> = Vec::new();
        let parameters = make_parameters(&fun.data, &mut values, &mut variables);
        assert(values@[0] == values@.take(1)[0]);
        let ret = *fun.data.return_type.get_done();
        let type_of = AnyTypeKey::Function(*fun.data.type_of.get_done());
        FunctionIr {
            source: Some(key),
            type_of: Some(type_of),
            variables,
            values,
            blocks,
            blocks_entry: 0,
            substitutions: None,
            void: 0,
            returns: Some(ret),
            parameters,
        }
    }

    /// Brings the function up to date with the constant stage: a value and
    /// a variable for each parameter are added after the existing ones, the
    /// parameters are replaced, and the source, type and result type set
    /// (no result type for `()`).
    pub fn const_stage_update(&mut self, fun: &AnyObject<FunctionObj>, fun_key: usize)
        requires
            signature_done(fun.data),
            old(self).values@.len() + fun.data.params@.len() <= usize::MAX,
            old(self).variables@.len() + fun.data.params@.len() <= usize::MAX,
        ensures
            final(self).values@.take(old(self).values@.len() as int) == old(self).values@,
            final(self).variables@.take(old(self).variables@.len() as int) == old(self).variables@,
            parameters_made(
                fun.data,
                final(self).values@,
                old(self).values@.len() as int,
                final(self).variables@,
                old(self).variables@.len() as int,
                final(self).parameters@,
            ),
            final(self).source == Some(fun_key),
            final(self).type_of == Some(AnyTypeKey::Function(done_of(fun.data.type_of))),
            final(self).returns == if done_of(fun.data.return_type) == AnyTypeKey::Primitive(PrimitiveType::Void) {
                None
            } else {
                Some(done_of(fun.data.return_type))
            },
            final(self).blocks == old(self).blocks,
            final(self).blocks_entry == old(self).blocks_entry,
            final(self).substitutions == old(self).substitutions,
            final(self).void == old(self).void,
    {
        let parameters = make_parameters(&fun.data, &mut self.values, &mut self.variables);
        self.parameters = parameters;
        self.source = Some(fun_key);
        self.type_of = Some(AnyTypeKey::Function(*fun.data.type_of.get_done()));
        let ret = *fun.data.return_type.get_done();
        self.returns = if ret == AnyTypeKey::Primitive(PrimitiveType::Void) {
            None
        } else {
            Some(ret)
        };
    }
}

/// The instruction under a span.
pub open spec fn instr_of(s: &Span<Instruction>) -> Instruction {
    *s.inner
}

/// The `used` marks of the values.
pub open spec fn value_marks(values: Seq<Value>) -> Seq<bool> {
    values.map_values(|v: Value| v.used)
}

/// The `used` marks of the variables.
pub open spec fn variable_marks(variables: Seq<Variable>) -> Seq<bool> {
    variables.map_values(|v: Variable| v.used)
}

/// `marks` with every entry named in `keys` set.
pub open spec fn mark_all(marks: Seq<bool>, keys: Seq<ValueKey>) -> Seq<bool>
    decreases keys.len(),
{
    if keys.len() == 0 {
        marks
    } else {
        mark_all(marks.update(keys.last() as int, true), keys.drop_last())
    }
}

/// The keys an instruction names all lie in the tables.
pub open spec fn instr_keys_ok(i: Instruction, nvals: int, nvars: int) -> bool {
    match i {
        Instruction::LoadConst { dst, .. } => dst < nvals,
        Instruction::BinOp { l, r, dst, .. } => l < nvals && r < nvals && dst < nvals,
        Instruction::UnaryOp { src, dst, .. } => src < nvals && dst < nvals,
        Instruction::StoreVar { dst, src } => dst < nvars && src < nvals,
        Instruction::LoadVar { src, dst } => src < nvars && dst < nvals,
        Instruction::Call { arguments, result, .. } => result < nvals && forall|k: int|
            0 <= k < arguments@.len() ==> #[trigger] arguments@[k] < nvals,
        Instruction::AddressOfObj { dst, .. } => dst < nvals,
        Instruction::AddressOfFun { dst, .. } => dst < nvals,
        Instruction::AddressOfVar { var, dst } => var < nvars && dst < nvals,
        Instruction::AddressOfVal { val, dst } => val < nvals && dst < nvals,
        Instruction::Deref { src, dst } => src < nvals && dst < nvals,
    }
}

/// One step of the backward scan over a block: whether the instruction is
/// kept, and the marks after it. An instruction is kept when its result is
/// marked used (for a store: when its variable is), and a call always;
/// a kept instruction marks what it reads.
pub open spec fn scan_step(i: Instruction, vals: Seq<bool>, vars: Seq<bool>) -> (bool, Seq<bool>, Seq<bool>) {
    match i {
        Instruction::BinOp { l, r, dst, .. } => if vals[dst as int] {
            (true, vals.update(l as int, true).update(r as int, true), vars)
        } else {
            (false, vals, vars)
        },
        Instruction::UnaryOp { src, dst, .. } => if vals[dst as int] {
            (true, vals.update(src as int, true), vars)
        } else {
            (false, vals, vars)
        },
        Instruction::StoreVar { dst, src } => if vars[dst as int] {
            (true, vals.update(src as int, true), vars)
        } else {
            (false, vals, vars)
        },
        Instruction::LoadVar { src, dst } => if vals[dst as int] {
            (true, vals, vars.update(src as int, true))
        } else {
            (false, vals, vars)
        },
        Instruction::Call { arguments, .. } => (true, mark_all(vals, arguments@), vars),
        Instruction::AddressOfObj { dst, .. } => (vals[dst as int], vals, vars),
        Instruction::AddressOfFun { dst, .. } => (vals[dst as int], vals, vars),
        Instruction::LoadConst { dst, .. } => (vals[dst as int], vals, vars),
        Instruction::AddressOfVar { var, dst } => if vals[dst as int] {
            (true, vals, vars.update(var as int, true))
        } else {
            (false, vals, vars)
        },
        Instruction::AddressOfVal { val, dst } => if vals[dst as int] {
            (true, vals.update(val as int, true), vars)
        } else {
            (false, vals, vars)
        },
        Instruction::Deref { src, dst } => if vals[dst as int] {
            (true, vals.update(src as int, true), vars)
        } else {
            (false, vals, vars)
        },
    }
}

/// The backward scan of a block, last instruction first: the instructions
/// kept (in their order) and the marks at the end.
pub open spec fn scan_block(instrs: Seq<Span<Instruction>>, vals: Seq<bool>, vars: Seq<bool>) -> (Seq<Span<Instruction>>, Seq<bool>, Seq<bool>)
    decreases instrs.len(),
{
    if instrs.len() == 0 {
        (instrs, vals, vars)
    } else {
        let st = scan_step(*instrs.last().inner, vals, vars);
        let rest = scan_block(instrs.drop_last(), st.1, st.2);
        (if st.0 {
            rest.0.push(instrs.last())
        } else {
            rest.0
        }, rest.1, rest.2)
    }
}

/// The values are those of `old` with only their marks possibly changed.
pub open spec fn values_remarked(new: Seq<Value>, old: Seq<Value>) -> bool {
    &&& new.len() == old.len()
    &&& forall|i: int|
        0 <= i < new.len() ==> (#[trigger] new[i]).ty == old[i].ty && new[i].needs_address
            == old[i].needs_address
}

/// The variables are those of `old` with only their marks possibly changed.
pub open spec fn variables_remarked(new: Seq<Variable>, old: Seq<Variable>) -> bool {
    &&& new.len() == old.len()
    &&& forall|i: int|
        0 <= i < new.len() ==> {
            &&& (#[trigger] new[i]).identifier == old[i].identifier
            &&& new[i].ty == old[i].ty
            &&& new[i].value == old[i].value
            &&& new[i].mutated == old[i].mutated
            &&& new[i].needs_address == old[i].needs_address
        }
}

fn mark_value(values: &mut Vec<Value>, k: ValueKey)
    requires
        k < old(values)@.len(),
    ensures
        values_remarked(final(values)@, old(values)@),
        value_marks(final(values)@) == value_marks(old(values)@).update(k as int, true),
        marks_grow(value_marks(final(values)@), value_marks(old(values)@)),
{
    values[k].used = true;
    proof {
        assert(value_marks(values@) =~= value_marks(old(values)@).update(k as int, true));
    }
}

fn mark_variable(variables: &mut Vec<Variable>, k: VariableKey)
    requires
        k < old(variables)@.len(),
    ensures
        variables_remarked(final(variables)@, old(variables)@),
        variable_marks(final(variables)@) == variable_marks(old(variables)@).update(k as int, true),
        marks_grow(variable_marks(final(variables)@), variable_marks(old(variables)@)),
{
    variables[k].used = true;
    proof {
        assert(variable_marks(variables@) =~= variable_marks(old(variables)@).update(k as int, true));
    }
}

fn mark_arguments(values: &mut Vec<Value>, arguments: &Vec<ValueKey>)
    requires
        forall|k: int| 0 <= k < arguments@.len() ==> #[trigger] arguments@[k] < old(values)@.len(),
    ensures
        values_remarked(final(values)@, old(values)@),
        value_marks(final(values)@) == mark_all(value_marks(old(values)@), arguments@),
{
    let mut j = arguments.len();
    assert(arguments@.take(j as int) =~= arguments@);
    while j > 0
        invariant
            j <= arguments@.len(),
            values_remarked(values@, old(values)@),
            forall|k: int| 0 <= k < arguments@.len() ==> #[trigger] arguments@[k] < old(values)@.len(),
            mark_all(value_marks(old(values)@), arguments@) == mark_all(
                value_marks(values@),
                arguments@.take(j as int),
            ),
        decreases j,
    {
        let ghost pre = arguments@.take(j as int);
        assert(pre.drop_last() =~= arguments@.take(j - 1));
        assert(pre.last() == arguments@[j - 1]);
        mark_value(values, arguments[j - 1]);
        j = j - 1;
    }
}

/// Removes, scanning backward, the instructions of a block whose results
/// are unused, marking what the kept ones read; see `scan_block`.
pub fn eliminate_in_block(instrs: &Vec<Span<Instruction>>, values: &mut Vec<Value>, variables: &mut Vec<Variable>) -> (kept: Vec<Span<Instruction>>)
    requires
        forall|i: int| 0 <= i < instrs@.len() ==> instr_keys_ok(*(#[trigger] instrs@[i]).inner, old(values)@.len() as int, old(variables)@.len() as int),
    ensures
        values_remarked(final(values)@, old(values)@),
        variables_remarked(final(variables)@, old(variables)@),
        (kept@, value_marks(final(values)@), variable_marks(final(variables)@)) == scan_block(instrs@, value_marks(old(values)@), variable_marks(old(variables)@)),
        marks_grow(value_marks(final(values)@), value_marks(old(values)@)),
        marks_grow(variable_marks(final(variables)@), variable_marks(old(variables)@)),
{
    proof {
        lemma_scan_marks_grow(instrs@, value_marks(old(values)@), variable_marks(old(variables)@));
    }
    let mut rev: Vec<Span<Instruction>> = Vec::new();
    let mut j = instrs.len();
    let ghost vals0 = value_marks(values@);
    let ghost vars0 = variable_marks(variables@);
    proof {
        assert(instrs@.take(instrs@.len() as int) =~= instrs@);
    }
    while j > 0
        invariant
            j <= instrs@.len(),
            forall|i: int| 0 <= i < instrs@.len() ==> instr_keys_ok(*(#[trigger] instrs@[i]).inner, old(values)@.len() as int, old(variables)@.len() as int),
            values_remarked(values@, old(values)@),
            variables_remarked(variables@, old(variables)@),
            vals0 == value_marks(old(values)@),
            vars0 == variable_marks(old(variables)@),
            ({
                let rest = scan_block(instrs@.take(j as int), value_marks(values@), variable_marks(variables@));
                scan_block(instrs@, vals0, vars0) == (rest.0 + rev@.reverse(), rest.1, rest.2)
            }),
        decreases j,
    {
        let ghost pre = instrs@.take(j as int);
        assert(pre.drop_last() =~= instrs@.take(j - 1));
        assert(pre.last() == instrs@[j - 1]);
        let span = &instrs[j - 1];
        let ghost before_vals = value_marks(values@);
        let ghost before_vars = variable_marks(variables@);
        let ghost st = scan_step(instr_of(span), before_vals, before_vars);
        assert(instr_keys_ok(*instrs@[j - 1].inner, old(values)@.len() as int, old(variables)@.len() as int));
        let keep = match &*span.inner {
            Instruction::BinOp { l, r, dst, .. } => {
                if values[*dst].used {
                    mark_value(values, *l);
                    mark_value(values, *r);
                    true
                } else {
                    false
                }
            },
            Instruction::UnaryOp { src, dst, .. } => {
                if values[*dst].used {
                    mark_value(values, *src);
                    true
                } else {
                    false
                }
            },
            Instruction::StoreVar { dst, src } => {
                if variables[*dst].used {
                    mark_value(values, *src);
                    true
                } else {
                    false
                }
            },
            Instruction::LoadVar { src, dst } => {
                if values[*dst].used {
                    mark_variable(variables, *src);
                    true
                } else {
                    false
                }
            },
            Instruction::Call { arguments, .. } => {
                mark_arguments(values, arguments);
                true
            },
            Instruction::AddressOfObj { dst, .. } => values[*dst].used,
            Instruction::AddressOfFun { dst, .. } => values[*dst].used,
            Instruction::LoadConst { dst, .. } => values[*dst].used,
            Instruction::AddressOfVar { var, dst } => {
                if values[*dst].used {
                    mark_variable(variables, *var);
                    true
                } else {
                    false
                }
            },
            Instruction::AddressOfVal { val, dst } => {
                if values[*dst].used {
                    mark_value(values, *val);
                    true
                } else {
                    false
                }
            },
            Instruction::Deref { src, dst } => {
                if values[*dst].used {
                    mark_value(values, *src);
                    true
                } else {
                    false
                }
            },
        };
        assert(keep == st.0);
        assert(value_marks(values@) == st.1);
        assert(variable_marks(variables@) == st.2);
        if keep {
            let ghost old_rev = rev@;
            rev.push(span.duplicate());
            assert(rev@.reverse() =~= seq![instrs@[j - 1]] + old_rev.reverse());
        }
        j = j - 1;
        proof {
            let rest = scan_block(instrs@.take(j as int), value_marks(values@), variable_marks(variables@));
            assert(rest.0 + rev@.reverse() =~= scan_block(pre, before_vals, before_vars).0 + (if keep { rev@.reverse().drop_first() } else { rev@.reverse() }));
        }
    }
    proof {
        assert(instrs@.take(0) =~= Seq::<Span<Instruction>>::empty());
    }
    let mut kept: Vec<Span<Instruction>> = Vec::new();
    let mut k = rev.len();
    while k > 0
        invariant
            k <= rev@.len(),
            kept@ == rev@.subrange(k as int, rev@.len() as int).reverse(),
        decreases k,
    {
        kept.push(rev[k - 1].duplicate());
        k = k - 1;
        assert(kept@ =~= rev@.subrange(k as int, rev@.len() as int).reverse());
    }
    assert(rev@.subrange(0, rev@.len() as int) =~= rev@);
    kept
}

/// Every key a terminator names lies in the tables.
pub open spec fn terminator_ok(t: Option<Terminator>, nblocks: int, nvals: int) -> bool {
    match t {
        Some(Terminator::Return(Some(v))) => v < nvals,
        Some(Terminator::Jump(b, v)) => b < nblocks && match v {
            Some(v) => v < nvals,
            None => true,
        },
        Some(Terminator::Branch { condition, then_block, else_block }) => condition < nvals
            && then_block < nblocks && else_block < nblocks,
        _ => true,
    }
}

/// Every key that the blocks name lies in the tables.
pub open spec fn blocks_ok(blocks: Seq<BasicBlock>, nvals: int, nvars: int) -> bool {
    forall|b: int|
        0 <= b < blocks.len() ==> {
            &&& terminator_ok((#[trigger] blocks[b]).terminator, blocks.len() as int, nvals)
            &&& forall|i: int|
                0 <= i < blocks[b].instructions@.len() ==> instr_keys_ok(
                    *(#[trigger] blocks[b].instructions@[i]).inner,
                    nvals,
                    nvars,
                )
        }
}

/// The instructions of each block.
pub open spec fn block_instrs(blocks: Seq<BasicBlock>) -> Seq<Seq<Span<Instruction>>> {
    blocks.map_values(|b: BasicBlock| b.instructions@)
}

/// The terminator of each block.
pub open spec fn terms_of(blocks: Seq<BasicBlock>) -> Seq<Option<Terminator>> {
    blocks.map_values(|b: BasicBlock| b.terminator)
}

/// The blocks of `new` are those of `old` but for their instructions.
pub open spec fn shapes_kept(new: Seq<BasicBlock>, old: Seq<BasicBlock>) -> bool {
    &&& new.len() == old.len()
    &&& forall|b: int|
        0 <= b < old.len() ==> (#[trigger] new[b]).terminator == old[b].terminator && new[b].instr_lock
            == old[b].instr_lock && new[b].parameter == old[b].parameter
}

/// Marks that were set stay set.
pub open spec fn marks_grow(new: Seq<bool>, old: Seq<bool>) -> bool {
    new.len() == old.len() && forall|i: int| 0 <= i < old.len() && #[trigger] old[i] ==> new[i]
}

/// Dead-code elimination from block `k`, depth first: the instructions of
/// the blocks, the marks of the values and of the variables, and the
/// blocks visited, after the pass. A block visited already (or with no
/// steps left) is passed over. Otherwise it is noted as visited, the value
/// its terminator returns, passes on or branches on is marked, the blocks
/// it leads to are processed (the `then` block before the `else` block),
/// and then its instructions are scanned backward with the marks as they
/// stand (see `scan_block`).
pub open spec fn dce_from(
    ts: Seq<Option<Terminator>>,
    ins: Seq<Seq<Span<Instruction>>>,
    k: usize,
    vs: Seq<bool>,
    ws: Seq<bool>,
    past: Set<usize>,
    fuel: nat,
) -> (Seq<Seq<Span<Instruction>>>, Seq<bool>, Seq<bool>, Set<usize>)
    decreases fuel,
{
    if fuel == 0 || past.contains(k) {
        (ins, vs, ws, past)
    } else {
        let past1 = past.insert(k);
        let r = match ts[k as int] {
            Some(Terminator::Jump(key, val)) => {
                let vs1 = match val {
                    Some(v) => vs.update(v as int, true),
                    None => vs,
                };
                dce_from(ts, ins, key, vs1, ws, past1, (fuel - 1) as nat)
            },
            Some(Terminator::Branch { condition, then_block, else_block }) => {
                let r1 = dce_from(ts, ins, then_block, vs.update(condition as int, true), ws, past1, (fuel - 1) as nat);
                dce_from(ts, r1.0, else_block, r1.1, r1.2, r1.3, (fuel - 1) as nat)
            },
            Some(Terminator::Return(Some(v))) => (ins, vs.update(v as int, true), ws, past1),
            _ => (ins, vs, ws, past1),
        };
        let sc = scan_block(r.0[k as int], r.1, r.2);
        (r.0.update(k as int, sc.0), sc.1, sc.2, r.3)
    }
}

proof fn lemma_dce_from_unvisited(
    ts: Seq<Option<Terminator>>,
    ins: Seq<Seq<Span<Instruction>>>,
    k: usize,
    vs: Seq<bool>,
    ws: Seq<bool>,
    past: Set<usize>,
    fuel: nat,
    nvals: int,
)
    requires
        k < ins.len(),
        ts.len() == ins.len(),
        forall|b: int| 0 <= b < ts.len() ==> terminator_ok(#[trigger] ts[b], ts.len() as int, nvals),
    ensures
        past.subset_of(dce_from(ts, ins, k, vs, ws, past, fuel).3),
        fuel > 0 ==> dce_from(ts, ins, k, vs, ws, past, fuel).3.contains(k),
        dce_from(ts, ins, k, vs, ws, past, fuel).0.len() == ins.len(),
        forall|b: usize|
            b < ins.len() && !dce_from(ts, ins, k, vs, ws, past, fuel).3.contains(b) ==> #[trigger] dce_from(
                ts,
                ins,
                k,
                vs,
                ws,
                past,
                fuel,
            ).0[b as int] == ins[b as int],
    decreases fuel,
{
    if fuel == 0 || past.contains(k) {
    } else {
        let past1 = past.insert(k);
        match ts[k as int] {
            Some(Terminator::Jump(key, val)) => {
                let vs1 = match val {
                    Some(v) => vs.update(v as int, true),
                    None => vs,
                };
                assert(terminator_ok(ts[k as int], ts.len() as int, nvals));
                lemma_dce_from_unvisited(ts, ins, key, vs1, ws, past1, (fuel - 1) as nat, nvals);
            },
            Some(Terminator::Branch { condition, then_block, else_block }) => {
                let vs1 = vs.update(condition as int, true);
                lemma_dce_from_unvisited(ts, ins, then_block, vs1, ws, past1, (fuel - 1) as nat, nvals);
                let r1 = dce_from(ts, ins, then_block, vs1, ws, past1, (fuel - 1) as nat);
                assert(terminator_ok(ts[k as int], ts.len() as int, nvals));
                lemma_dce_from_unvisited(ts, r1.0, else_block, r1.1, r1.2, r1.3, (fuel - 1) as nat, nvals);
            },
            _ => {},
        }
    }
}

/// Dead-code elimination changes only the blocks it visits: a block that
/// is not in the visited set keeps its instructions, and the entry block
/// is visited.
pub proof fn lemma_dce_unreached_kept(ir: FunctionIr)
    requires
        ir.blocks_entry < ir.blocks@.len(),
        blocks_ok(ir.blocks@, ir.values@.len() as int, ir.variables@.len() as int),
    ensures
        dce_result(ir).0.len() == ir.blocks@.len(),
        dce_result(ir).3.contains(ir.blocks_entry),
        forall|b: usize|
            b < ir.blocks@.len() && !dce_result(ir).3.contains(b) ==> #[trigger] dce_result(ir).0[b as int]
                == ir.blocks@[b as int].instructions@,
{
    assert forall|b: int| 0 <= b < ir.blocks@.len() implies terminator_ok(
        #[trigger] terms_of(ir.blocks@)[b],
        ir.blocks@.len() as int,
        ir.values@.len() as int,
    ) by {
        assert(terminator_ok(ir.blocks@[b].terminator, ir.blocks@.len() as int, ir.values@.len() as int));
    }
    lemma_dce_from_unvisited(
        terms_of(ir.blocks@),
        block_instrs(ir.blocks@),
        ir.blocks_entry,
        value_marks(ir.values@),
        variable_marks(ir.variables@),
        Set::empty(),
        (ir.blocks@.len() + 1) as nat,
        ir.values@.len() as int,
    );
    assert forall|b: usize| b < ir.blocks@.len() implies #[trigger] block_instrs(ir.blocks@)[b as int]
        == ir.blocks@[b as int].instructions@ by {}
}

/// Dead-code elimination of the whole function, from its entry block with
/// no block visited and steps enough for every block.
pub open spec fn dce_result(ir: FunctionIr) -> (Seq<Seq<Span<Instruction>>>, Seq<bool>, Seq<bool>, Set<usize>) {
    dce_from(
        terms_of(ir.blocks@),
        block_instrs(ir.blocks@),
        ir.blocks_entry,
        value_marks(ir.values@),
        variable_marks(ir.variables@),
        Set::empty(),
        (ir.blocks@.len() + 1) as nat,
    )
}

proof fn lemma_usize_set_len(s: Set<usize>, n: nat)
    requires
        s.finite(),
        forall|k: usize| #[trigger] s.contains(k) ==> k < n,
    ensures
        s.len() <= n,
    decreases n,
{
    if n > 0 {
        let k = (n - 1) as usize;
        lemma_usize_set_len(s.remove(k), (n - 1) as nat);
    } else {
        if s.len() > 0 {
            let x = s.choose();
            assert(s.contains(x));
        }
    }
}

proof fn lemma_scan_keeps_keys(instrs: Seq<Span<Instruction>>, vs: Seq<bool>, ws: Seq<bool>, nvals: int, nvars: int)
    requires
        forall|i: int| 0 <= i < instrs.len() ==> instr_keys_ok(*(#[trigger] instrs[i]).inner, nvals, nvars),
    ensures
        forall|i: int| 0 <= i < scan_block(instrs, vs, ws).0.len() ==> instr_keys_ok(*(#[trigger] scan_block(instrs, vs, ws).0[i]).inner, nvals, nvars),
    decreases instrs.len(),
{
    if instrs.len() > 0 {
        let st = scan_step(instr_of(&instrs.last()), vs, ws);
        lemma_scan_keeps_keys(instrs.drop_last(), st.1, st.2, nvals, nvars);
        let rest = scan_block(instrs.drop_last(), st.1, st.2);
        assert forall|i: int| 0 <= i < scan_block(instrs, vs, ws).0.len() implies instr_keys_ok(*(#[trigger] scan_block(instrs, vs, ws).0[i]).inner, nvals, nvars) by {
            if i < rest.0.len() {
                assert(scan_block(instrs, vs, ws).0[i] == rest.0[i]);
            } else {
                assert(scan_block(instrs, vs, ws).0[i] == instrs.last());
            }
        }
    }
}

proof fn lemma_scan_marks_grow(instrs: Seq<Span<Instruction>>, vs: Seq<bool>, ws: Seq<bool>)
    requires
        forall|i: int| 0 <= i < instrs.len() ==> instr_keys_ok(*(#[trigger] instrs[i]).inner, vs.len() as int, ws.len() as int),
    ensures
        marks_grow(scan_block(instrs, vs, ws).1, vs),
        marks_grow(scan_block(instrs, vs, ws).2, ws),
    decreases instrs.len(),
{
    if instrs.len() > 0 {
        let st = scan_step(instr_of(&instrs.last()), vs, ws);
        lemma_step_marks_grow(instr_of(&instrs.last()), vs, ws);
        lemma_scan_marks_grow(instrs.drop_last(), st.1, st.2);
    }
}

proof fn lemma_mark_all_grow(marks: Seq<bool>, keys: Seq<ValueKey>)
    requires
        forall|k: int| 0 <= k < keys.len() ==> #[trigger] keys[k] < marks.len(),
    ensures
        marks_grow(mark_all(marks, keys), marks),
    decreases keys.len(),
{
    if keys.len() > 0 {
        let m2 = marks.update(keys.last() as int, true);
        assert forall|k: int| 0 <= k < keys.drop_last().len() implies #[trigger] keys.drop_last()[k] < m2.len() by {
            assert(keys.drop_last()[k] == keys[k]);
        }
        lemma_mark_all_grow(m2, keys.drop_last());
        let fin = mark_all(marks, keys);
        assert(fin == mark_all(m2, keys.drop_last()));
        assert forall|i: int| 0 <= i < marks.len() && #[trigger] marks[i] implies fin[i] by {
            assert(m2[i]);
        }
    }
}

proof fn lemma_step_marks_grow(i: Instruction, vs: Seq<bool>, ws: Seq<bool>)
    requires
        instr_keys_ok(i, vs.len() as int, ws.len() as int),
    ensures
        marks_grow(scan_step(i, vs, ws).1, vs),
        marks_grow(scan_step(i, vs, ws).2, ws),
{
    if let Instruction::Call { arguments, .. } = i {
        lemma_mark_all_grow(vs, arguments@);
    }
}

/// Everything the instruction reads is marked used: the values it reads
/// in `vals`, and the variable it loads from or takes the address of in
/// `vars`.
pub open spec fn reads_marked(i: Instruction, vals: Seq<bool>, vars: Seq<bool>) -> bool {
    match i {
        Instruction::BinOp { l, r, .. } => vals[l as int] && vals[r as int],
        Instruction::UnaryOp { src, .. } => vals[src as int],
        Instruction::StoreVar { src, .. } => vals[src as int],
        Instruction::LoadVar { src, .. } => vars[src as int],
        Instruction::Call { arguments, .. } => forall|k: int|
            0 <= k < arguments@.len() ==> vals[#[trigger] arguments@[k] as int],
        Instruction::AddressOfVar { var, .. } => vars[var as int],
        Instruction::AddressOfVal { val, .. } => vals[val as int],
        Instruction::Deref { src, .. } => vals[src as int],
        _ => true,
    }
}

proof fn lemma_mark_all_marks(marks: Seq<bool>, keys: Seq<ValueKey>)
    requires
        forall|k: int| 0 <= k < keys.len() ==> #[trigger] keys[k] < marks.len(),
    ensures
        forall|k: int| 0 <= k < keys.len() ==> mark_all(marks, keys)[#[trigger] keys[k] as int],
        mark_all(marks, keys).len() == marks.len(),
    decreases keys.len(),
{
    if keys.len() > 0 {
        let m2 = marks.update(keys.last() as int, true);
        assert forall|k: int| 0 <= k < keys.drop_last().len() implies #[trigger] keys.drop_last()[k] < m2.len() by {
            assert(keys.drop_last()[k] == keys[k]);
        }
        lemma_mark_all_marks(m2, keys.drop_last());
        lemma_mark_all_grow(m2, keys.drop_last());
        assert forall|k: int| 0 <= k < keys.len() implies mark_all(marks, keys)[#[trigger] keys[k] as int] by {
            if k < keys.len() - 1 {
                assert(keys.drop_last()[k] == keys[k]);
            } else {
                assert(m2[keys.last() as int]);
            }
        }
    }
}

proof fn lemma_reads_marked_grow(i: Instruction, vs: Seq<bool>, ws: Seq<bool>, vs2: Seq<bool>, ws2: Seq<bool>)
    requires
        instr_keys_ok(i, vs.len() as int, ws.len() as int),
        reads_marked(i, vs, ws),
        marks_grow(vs2, vs),
        marks_grow(ws2, ws),
    ensures
        reads_marked(i, vs2, ws2),
{
    if let Instruction::Call { arguments, .. } = i {
        assert forall|k: int| 0 <= k < arguments@.len() implies vs2[#[trigger] arguments@[k] as int] by {
            assert(vs[arguments@[k] as int]);
        }
    }
}

/// The instruction's result is needed under the marks: a call always, a
/// store when its variable is marked, any other instruction when the value
/// it defines is marked.
pub open spec fn result_needed(i: Instruction, vals: Seq<bool>, vars: Seq<bool>) -> bool {
    match i {
        Instruction::Call { .. } => true,
        Instruction::StoreVar { dst, .. } => vars[dst as int],
        Instruction::LoadConst { dst, .. } => vals[dst as int],
        Instruction::BinOp { dst, .. } => vals[dst as int],
        Instruction::UnaryOp { dst, .. } => vals[dst as int],
        Instruction::LoadVar { dst, .. } => vals[dst as int],
        Instruction::AddressOfObj { dst, .. } => vals[dst as int],
        Instruction::AddressOfFun { dst, .. } => vals[dst as int],
        Instruction::AddressOfVar { dst, .. } => vals[dst as int],
        Instruction::AddressOfVal { dst, .. } => vals[dst as int],
        Instruction::Deref { dst, .. } => vals[dst as int],
    }
}

/// The backward scan keeps every instruction whose result is needed under
/// the marks it starts from (marks are only ever set): calls are always
/// kept, and so is whatever defines a value or variable already in use.
pub proof fn lemma_scan_keeps_needed(instrs: Seq<Span<Instruction>>, vs: Seq<bool>, ws: Seq<bool>)
    requires
        forall|i: int| 0 <= i < instrs.len() ==> instr_keys_ok(*(#[trigger] instrs[i]).inner, vs.len() as int, ws.len() as int),
    ensures
        forall|j: int|
            0 <= j < instrs.len() && result_needed(*(#[trigger] instrs[j]).inner, vs, ws) ==> scan_block(
                instrs,
                vs,
                ws,
            ).0.contains(instrs[j]),
    decreases instrs.len(),
{
    if instrs.len() > 0 {
        let last = instrs.last();
        let i = *last.inner;
        let st = scan_step(i, vs, ws);
        let init = instrs.drop_last();
        assert(instr_keys_ok(i, vs.len() as int, ws.len() as int));
        lemma_step_marks_grow(i, vs, ws);
        assert forall|j: int| 0 <= j < init.len() implies instr_keys_ok(*(#[trigger] init[j]).inner, st.1.len() as int, st.2.len() as int) by {
            assert(init[j] == instrs[j]);
        }
        lemma_scan_keeps_needed(init, st.1, st.2);
        let rest = scan_block(init, st.1, st.2);
        let out = scan_block(instrs, vs, ws).0;
        assert forall|j: int| 0 <= j < instrs.len() && result_needed(*(#[trigger] instrs[j]).inner, vs, ws) implies out.contains(instrs[j]) by {
            if j == instrs.len() - 1 {
                assert(st.0);
                assert(out == rest.0.push(last));
                assert(out[out.len() - 1] == last);
            } else {
                assert(init[j] == instrs[j]);
                assert(instr_keys_ok(*instrs[j].inner, vs.len() as int, ws.len() as int));
                assert(result_needed(*init[j].inner, st.1, st.2));
                assert(rest.0.contains(init[j]));
                let m = choose|m: int| 0 <= m < rest.0.len() && rest.0[m] == init[j];
                if st.0 {
                    assert(out == rest.0.push(last));
                    assert(out[m] == rest.0[m]);
                }
            }
        }
    }
}

/// After the backward scan of a block, everything that a kept instruction
/// reads is marked used: a kept load marks the variable it reads (so a
/// store to it earlier in the block is kept), a kept operation the values
/// it reads, a call its arguments.
pub proof fn lemma_scan_reads_marked(instrs: Seq<Span<Instruction>>, vs: Seq<bool>, ws: Seq<bool>)
    requires
        forall|i: int| 0 <= i < instrs.len() ==> instr_keys_ok(*(#[trigger] instrs[i]).inner, vs.len() as int, ws.len() as int),
    ensures
        forall|k: int|
            0 <= k < scan_block(instrs, vs, ws).0.len() ==> reads_marked(
                *(#[trigger] scan_block(instrs, vs, ws).0[k]).inner,
                scan_block(instrs, vs, ws).1,
                scan_block(instrs, vs, ws).2,
            ),
    decreases instrs.len(),
{
    if instrs.len() > 0 {
        let last = instrs.last();
        let i = *last.inner;
        let st = scan_step(i, vs, ws);
        let init = instrs.drop_last();
        assert(instr_keys_ok(i, vs.len() as int, ws.len() as int));
        lemma_step_marks_grow(i, vs, ws);
        assert forall|j: int| 0 <= j < init.len() implies instr_keys_ok(*(#[trigger] init[j]).inner, st.1.len() as int, st.2.len() as int) by {
            assert(init[j] == instrs[j]);
        }
        lemma_scan_reads_marked(init, st.1, st.2);
        lemma_scan_marks_grow(init, st.1, st.2);
        let rest = scan_block(init, st.1, st.2);
        if st.0 {
            assert(reads_marked(i, st.1, st.2)) by {
                if let Instruction::Call { arguments, .. } = i {
                    lemma_mark_all_marks(vs, arguments@);
                }
            }
            lemma_reads_marked_grow(i, st.1, st.2, rest.1, rest.2);
            let out = scan_block(instrs, vs, ws).0;
            assert(out == rest.0.push(last));
            assert forall|k: int| 0 <= k < out.len() implies reads_marked(*(#[trigger] out[k]).inner, rest.1, rest.2) by {
                if k < rest.0.len() {
                    assert(out[k] == rest.0[k]);
                }
            }
        }
    }
}

/// Visits the block `block_key` and, first, the blocks its terminator leads
/// to that are not yet in `past_blocks`; in each visited block it removes
/// the instructions whose results are unused (see `dce_from`, which this
/// follows with `fuel` steps).
fn block_dead_code_elim(
    blocks: &mut Vec<BasicBlock>,
    block_key: BlockKey,
    values: &mut Vec<Value>,
    variables: &mut Vec<Variable>,
    past_blocks: &mut std::collections::HashSet<BlockKey>,
    Ghost(fuel): Ghost<nat>,
)
    requires
        block_key < old(blocks)@.len(),
        blocks_ok(old(blocks)@, old(values)@.len() as int, old(variables)@.len() as int),
        old(past_blocks)@.finite(),
        forall|k: usize| #[trigger] old(past_blocks)@.contains(k) ==> k < old(blocks)@.len(),
        fuel + old(past_blocks)@.len() > old(blocks)@.len(),
    ensures
        shapes_kept(final(blocks)@, old(blocks)@),
        blocks_ok(final(blocks)@, old(values)@.len() as int, old(variables)@.len() as int),
        final(past_blocks)@.finite(),
        final(past_blocks)@.contains(block_key),
        old(past_blocks)@.subset_of(final(past_blocks)@),
        forall|k: usize| #[trigger] final(past_blocks)@.contains(k) ==> k < old(blocks)@.len(),
        values_remarked(final(values)@, old(values)@),
        variables_remarked(final(variables)@, old(variables)@),
        ({
            let r = dce_from(
                terms_of(old(blocks)@),
                block_instrs(old(blocks)@),
                block_key,
                value_marks(old(values)@),
                variable_marks(old(variables)@),
                old(past_blocks)@,
                fuel,
            );
            &&& block_instrs(final(blocks)@) == r.0
            &&& value_marks(final(values)@) == r.1
            &&& variable_marks(final(variables)@) == r.2
            &&& final(past_blocks)@ == r.3
        }),
    decreases fuel,
{
    broadcast use vstd::std_specs::hash::group_hash_axioms;

    proof {
        lemma_usize_set_len(past_blocks@, blocks@.len() as nat);
    }
    if past_blocks.contains(&block_key) {
        proof {
            assert(shapes_kept(blocks@, blocks@));
        }
        return;
    }
    let ghost ts = terms_of(blocks@);
    let ghost blocks0 = blocks@;
    let ghost vs0 = value_marks(values@);
    let ghost ws0 = variable_marks(variables@);
    past_blocks.insert(block_key);
    proof {
        lemma_usize_set_len(past_blocks@, blocks@.len() as nat);
        assert(shapes_kept(blocks@, blocks0));
    }
    let ghost past1 = past_blocks@;
    let nvals = values.len();
    let nvars = variables.len();
    match blocks[block_key].terminator {
        Some(Terminator::Jump(key, val)) => {
            if let Some(v) = val {
                mark_value(values, v);
            }
            block_dead_code_elim(blocks, key, values, variables, past_blocks, Ghost((fuel - 1) as nat));
        },
        Some(Terminator::Branch { condition, then_block, else_block }) => {
            mark_value(values, condition);
            block_dead_code_elim(blocks, then_block, values, variables, past_blocks, Ghost((fuel - 1) as nat));
            proof {
                vstd::set_lib::lemma_len_subset(past1, past_blocks@);
                assert(terms_of(blocks@) =~= ts);
            }
            let ghost mid = blocks@;
            block_dead_code_elim(blocks, else_block, values, variables, past_blocks, Ghost((fuel - 1) as nat));
            proof {
                assert(shapes_kept(blocks@, blocks0)) by {
                    assert forall|b: int| 0 <= b < blocks0.len() implies (#[trigger] blocks@[b]).terminator
                        == blocks0[b].terminator && blocks@[b].instr_lock == blocks0[b].instr_lock
                        && blocks@[b].parameter == blocks0[b].parameter by {
                        assert(mid[b].terminator == blocks0[b].terminator);
                    }
                }
            }
        },
        Some(Terminator::Return(Some(v))) => {
            mark_value(values, v);
        },
        _ => {},
    }
    let ghost r = dce_from(
        ts,
        block_instrs(blocks0),
        block_key,
        vs0,
        ws0,
        old(past_blocks)@,
        fuel,
    );
    let ghost before = blocks@;
    let ghost vm = value_marks(values@);
    let ghost wm = variable_marks(variables@);
    proof {
        assert(block_instrs(before)[block_key as int] == before[block_key as int].instructions@);
    }
    let kept = eliminate_in_block(&blocks[block_key].instructions, values, variables);
    proof {
        let ins = before[block_key as int].instructions@;
        lemma_scan_keeps_keys(ins, vm, wm, nvals as int, nvars as int);
    }
    let ghost kept_view = kept@;
    blocks[block_key].instructions = kept;
    proof {
        assert(block_instrs(blocks@) =~= block_instrs(before).update(block_key as int, kept_view));
        assert(shapes_kept(blocks@, blocks0)) by {
            assert forall|b: int| 0 <= b < blocks0.len() implies (#[trigger] blocks@[b]).terminator
                == blocks0[b].terminator && blocks@[b].instr_lock == blocks0[b].instr_lock
                && blocks@[b].parameter == blocks0[b].parameter by {
                assert(before[b].terminator == blocks0[b].terminator);
            }
        }
        assert forall|b: int| 0 <= b < blocks@.len() implies {
            &&& terminator_ok((#[trigger] blocks@[b]).terminator, blocks@.len() as int, nvals as int)
            &&& forall|i: int|
                0 <= i < blocks@[b].instructions@.len() ==> instr_keys_ok(
                    *(#[trigger] blocks@[b].instructions@[i]).inner,
                    nvals as int,
                    nvars as int,
                )
        } by {
            if b != block_key {
                assert(blocks@[b] == before[b]);
            } else {
                assert(blocks@[b].instructions@ == kept_view);
                assert(terminator_ok(before[b].terminator, before.len() as int, nvals as int));
            }
        }
    }
}

/// Removes from the blocks reachable from the entry the instructions whose
/// results are unused: the blocks, value marks and variable marks after the
/// pass are exactly those of `dce_result` (blocks are visited depth first
/// from the entry, each after the blocks its terminator leads to, and
/// scanned backward with the marks as the pass holds them then); blocks
/// that are not reached keep their instructions, and nothing else changes.
pub fn dead_code_elimination(ir: &mut FunctionIr)
    requires
        old(ir).blocks_entry < old(ir).blocks@.len(),
        blocks_ok(old(ir).blocks@, old(ir).values@.len() as int, old(ir).variables@.len() as int),
    ensures
        block_instrs(final(ir).blocks@) == dce_result(*old(ir)).0,
        value_marks(final(ir).values@) == dce_result(*old(ir)).1,
        variable_marks(final(ir).variables@) == dce_result(*old(ir)).2,
        shapes_kept(final(ir).blocks@, old(ir).blocks@),
        blocks_ok(final(ir).blocks@, old(ir).values@.len() as int, old(ir).variables@.len() as int),
        values_remarked(final(ir).values@, old(ir).values@),
        variables_remarked(final(ir).variables@, old(ir).variables@),
        final(ir).blocks_entry == old(ir).blocks_entry,
        final(ir).source == old(ir).source,
        final(ir).type_of == old(ir).type_of,
        final(ir).substitutions == old(ir).substitutions,
        final(ir).void == old(ir).void,
        final(ir).returns == old(ir).returns,
        final(ir).parameters@ == old(ir).parameters@,
{
    broadcast use vstd::std_specs::hash::group_hash_axioms;

    let mut past_block: std::collections::HashSet<BlockKey> = std::collections::HashSet::new();
    let ghost empty = past_block@;
    assert(empty == Set::<usize>::empty());
    let entry = ir.blocks_entry;
    let ghost n = (ir.blocks@.len() + 1) as nat;
    block_dead_code_elim(&mut ir.blocks, entry, &mut ir.values, &mut ir.variables, &mut past_block, Ghost(n));
}

} // verus!
