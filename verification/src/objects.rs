//! The objects a module declares, as the constant stage records them.

use crate::init_state::InitState;
use crate::span::Span;
use crate::types::AnyTypeKey;
use std::collections::HashMap;
use vstd::prelude::*;

verus! {

/// Who may use an object: anyone, the module's siblings, the project, or
/// only its own module.
#[derive(Debug, Clone, Copy, PartialEq, Eq, Structural)]
pub enum AccessModifiers {
    Public,
    PublicModule,
    PublicProject,
    Private,
}

/// The lowered forms of a function: one, or one per instantiation of a
/// polymorphic function (keyed by the instantiating type).
#[derive(Debug)]
pub enum IrCache {
    Single(InitState<usize>),
    Polymorphic(HashMap<AnyTypeKey, InitState<usize>>),
}

/// What the constant stage knows of a function: its result type, its
/// parameters with their types, the constraints of its generic parameters,
/// its type (an index into the function-type table), its lowered forms and
/// its generic scope.
#[derive(Debug)]
pub struct FunctionObj {
    pub return_type: InitState<AnyTypeKey, ()>,
    pub params: Vec<(Span<String>, InitState<AnyTypeKey, ()>)>,
    pub generics: Vec<usize>,
    pub type_of: InitState<usize, ()>,
    pub ir: IrCache,
    pub generic_scope: InitState<usize, ()>,
}

/// An object with its name, its access, the syntax-tree object it comes
/// from and its module.
#[derive(Debug)]
pub struct AnyObject<T> {
    pub data: T,
    pub access: AccessModifiers,
    pub identifier: String,
    pub ast_object: Option<usize>,
    pub module: usize,
}

impl<T> AnyObject<T> {
    pub fn new(identifier: String, data: T, ast_object: Option<usize>, module: usize, access: AccessModifiers) -> (o: AnyObject<T>)
        ensures
            o == (AnyObject { data, access, identifier, ast_object, module }),
    {
        AnyObject { identifier, access, data, ast_object, module }
    }
}

/// The types of a function's parameters and result are all known.
pub open spec fn signature_done(f: FunctionObj) -> bool {
    &&& f.return_type is Done
    &&& f.type_of is Done
    &&& forall|j: int| 0 <= j < f.params@.len() ==> (#[trigger] f.params@[j]).1 is Done
}

} // verus!
