//! The primitive types of the language.

use crate::text::{chars_of, same_chars};
use vstd::prelude::*;

verus! {

/// The built-in scalar and vector types.
#[derive(Debug, Clone, Copy, PartialEq, Eq, Hash, Structural)]
pub enum PrimitiveType {
    I8,
    I16,
    I32,
    I64,
    I128,
    U8,
    U16,
    U32,
    U64,
    U128,
    F32,
    F64,
    F32x2,
    F64x2,
    F32x4,
    F64x4,
    Char,
    Bool,
    Void,
    EntityRef,
}

/// The name under which the type is written in source text.
pub open spec fn primitive_name(p: PrimitiveType) -> Seq<char> {
    match p {
        PrimitiveType::I8 => seq!['i', '8'],
        PrimitiveType::I16 => seq!['i', '1', '6'],
        PrimitiveType::I32 => seq!['i', '3', '2'],
        PrimitiveType::I64 => seq!['i', '6', '4'],
        PrimitiveType::I128 => seq!['i', '1', '2', '8'],
        PrimitiveType::U8 => seq!['u', '8'],
        PrimitiveType::U16 => seq!['u', '1', '6'],
        PrimitiveType::U32 => seq!['u', '3', '2'],
        PrimitiveType::U64 => seq!['u', '6', '4'],
        PrimitiveType::U128 => seq!['u', '1', '2', '8'],
        PrimitiveType::F32 => seq!['f', '3', '2'],
        PrimitiveType::F64 => seq!['f', '6', '4'],
        PrimitiveType::F32x2 => seq!['f', '3', '2', 'x', '2'],
        PrimitiveType::F64x2 => seq!['f', '6', '4', 'x', '2'],
        PrimitiveType::F32x4 => seq!['f', '3', '2', 'x', '4'],
        PrimitiveType::F64x4 => seq!['f', '6', '4', 'x', '4'],
        PrimitiveType::Char => seq!['c', 'h', 'a', 'r'],
        PrimitiveType::Bool => seq!['b', 'o', 'o', 'l'],
        PrimitiveType::Void => seq!['(', ')'],
        PrimitiveType::EntityRef => seq!['e', 'n', 't', 'i', 't', 'y'],
    }
}

/// Signed integer types and their width in bits.
pub open spec fn spec_int_size(p: PrimitiveType) -> Option<u32> {
    match p {
        PrimitiveType::I8 => Some(8),
        PrimitiveType::I16 => Some(16),
        PrimitiveType::I32 => Some(32),
        PrimitiveType::I64 => Some(64),
        PrimitiveType::I128 => Some(128),
        _ => None,
    }
}

/// Unsigned integer types and their width in bits.
pub open spec fn spec_uint_size(p: PrimitiveType) -> Option<u32> {
    match p {
        PrimitiveType::U8 => Some(8),
        PrimitiveType::U16 => Some(16),
        PrimitiveType::U32 => Some(32),
        PrimitiveType::U64 => Some(64),
        PrimitiveType::U128 => Some(128),
        _ => None,
    }
}

/// Scalar floating-point types and their width in bits.
pub open spec fn spec_float_size(p: PrimitiveType) -> Option<u32> {
    match p {
        PrimitiveType::F32 => Some(32),
        PrimitiveType::F64 => Some(64),
        _ => None,
    }
}

/// The width of a scalar numeric type: signed, unsigned or float.
pub open spec fn spec_number_size(p: PrimitiveType) -> Option<u32> {
    match spec_int_size(p) {
        Some(n) => Some(n),
        None => match spec_uint_size(p) {
            Some(n) => Some(n),
            None => spec_float_size(p),
        },
    }
}

/// Every primitive type but `()`, in declaration order.
pub open spec fn named_types() -> Seq<PrimitiveType> {
    seq![
        PrimitiveType::I8,
        PrimitiveType::I16,
        PrimitiveType::I32,
        PrimitiveType::I64,
        PrimitiveType::I128,
        PrimitiveType::U8,
        PrimitiveType::U16,
        PrimitiveType::U32,
        PrimitiveType::U64,
        PrimitiveType::U128,
        PrimitiveType::F32,
        PrimitiveType::F64,
        PrimitiveType::F32x2,
        PrimitiveType::F64x2,
        PrimitiveType::F32x4,
        PrimitiveType::F64x4,
        PrimitiveType::Char,
        PrimitiveType::Bool,
        PrimitiveType::EntityRef,
    ]
}

fn named_types_vec() -> (v: Vec<PrimitiveType>)
    ensures
        v@ == named_types(),
{
    let v = vec![
        PrimitiveType::I8,
        PrimitiveType::I16,
        PrimitiveType::I32,
        PrimitiveType::I64,
        PrimitiveType::I128,
        PrimitiveType::U8,
        PrimitiveType::U16,
        PrimitiveType::U32,
        PrimitiveType::U64,
        PrimitiveType::U128,
        PrimitiveType::F32,
        PrimitiveType::F64,
        PrimitiveType::F32x2,
        PrimitiveType::F64x2,
        PrimitiveType::F32x4,
        PrimitiveType::F64x4,
        PrimitiveType::Char,
        PrimitiveType::Bool,
        PrimitiveType::EntityRef,
    ];
    assert(v@ =~= named_types());
    v
}

proof fn lemma_named_types()
    ensures
        forall|p: PrimitiveType| p != PrimitiveType::Void ==> named_types().contains(p),
        forall|i: int| 0 <= i < named_types().len() ==> named_types()[i] != PrimitiveType::Void,
{
    assert forall|p: PrimitiveType| p != PrimitiveType::Void implies named_types().contains(p) by {
        let i: int = match p {
            PrimitiveType::I8 => 0,
            PrimitiveType::I16 => 1,
            PrimitiveType::I32 => 2,
            PrimitiveType::I64 => 3,
            PrimitiveType::I128 => 4,
            PrimitiveType::U8 => 5,
            PrimitiveType::U16 => 6,
            PrimitiveType::U32 => 7,
            PrimitiveType::U64 => 8,
            PrimitiveType::U128 => 9,
            PrimitiveType::F32 => 10,
            PrimitiveType::F64 => 11,
            PrimitiveType::F32x2 => 12,
            PrimitiveType::F64x2 => 13,
            PrimitiveType::F32x4 => 14,
            PrimitiveType::F64x4 => 15,
            PrimitiveType::Char => 16,
            PrimitiveType::Bool => 17,
            _ => 18,
        };
        assert(named_types()[i] == p);
    }
}

impl PrimitiveType {
    /// The type written as `s`; `()` is not read back.
    pub fn from_str(s: &str) -> (r: Option<PrimitiveType>)
        ensures
            r matches Some(p) ==> p != PrimitiveType::Void && primitive_name(p) == s@,
            r is None ==> forall|p: PrimitiveType| p != PrimitiveType::Void ==> primitive_name(p) != s@,
    {
        let cs = chars_of(s);
        let all = named_types_vec();
        proof {
            lemma_named_types();
        }
        let mut i: usize = 0;
        while i < all.len()
            invariant
                all@ == named_types(),
                cs@ == s@,
                0 <= i <= all@.len(),
                forall|j: int| 0 <= j < i ==> primitive_name(#[trigger] all@[j]) != s@,
            decreases all@.len() - i,
        {
            let p = all[i];
            let name = chars_of(p.stringify());
            if same_chars(&name, &cs) {
                return Some(p);
            }
            i = i + 1;
        }
        proof {
            assert forall|p: PrimitiveType| p != PrimitiveType::Void implies primitive_name(p) != s@ by {
                let j = all@.index_of(p);
                assert(all@[j] == p);
            }
        }
        None
    }

    /// The name of the type as written in source text.
    pub fn stringify(&self) -> (s: &'static str)
        ensures
            s@ == primitive_name(*self),
    {
        match self {
            PrimitiveType::I8 => { proof { reveal_strlit("i8"); } "i8" },
            PrimitiveType::I16 => { proof { reveal_strlit("i16"); } "i16" },
            PrimitiveType::I32 => { proof { reveal_strlit("i32"); } "i32" },
            PrimitiveType::I64 => { proof { reveal_strlit("i64"); } "i64" },
            PrimitiveType::I128 => { proof { reveal_strlit("i128"); } "i128" },
            PrimitiveType::U8 => { proof { reveal_strlit("u8"); } "u8" },
            PrimitiveType::U16 => { proof { reveal_strlit("u16"); } "u16" },
            PrimitiveType::U32 => { proof { reveal_strlit("u32"); } "u32" },
            PrimitiveType::U64 => { proof { reveal_strlit("u64"); } "u64" },
            PrimitiveType::U128 => { proof { reveal_strlit("u128"); } "u128" },
            PrimitiveType::F32 => { proof { reveal_strlit("f32"); } "f32" },
            PrimitiveType::F64 => { proof { reveal_strlit("f64"); } "f64" },
            PrimitiveType::F32x2 => { proof { reveal_strlit("f32x2"); } "f32x2" },
            PrimitiveType::F64x2 => { proof { reveal_strlit("f64x2"); } "f64x2" },
            PrimitiveType::F32x4 => { proof { reveal_strlit("f32x4"); } "f32x4" },
            PrimitiveType::F64x4 => { proof { reveal_strlit("f64x4"); } "f64x4" },
            PrimitiveType::Char => { proof { reveal_strlit("char"); } "char" },
            PrimitiveType::Bool => { proof { reveal_strlit("bool"); } "bool" },
            PrimitiveType::Void => { proof { reveal_strlit("()"); } "()" },
            PrimitiveType::EntityRef => { proof { reveal_strlit("entity"); } "entity" },
        }
    }

    /// The width of a signed integer type.
    pub fn int_size(&self) -> (r: Option<u32>)
        ensures
            r == spec_int_size(*self),
    {
        match self {
            PrimitiveType::I8 => Some(8),
            PrimitiveType::I16 => Some(16),
            PrimitiveType::I32 => Some(32),
            PrimitiveType::I64 => Some(64),
            PrimitiveType::I128 => Some(128),
            _ => None,
        }
    }

    /// The width of an unsigned integer type.
    pub fn uint_size(&self) -> (r: Option<u32>)
        ensures
            r == spec_uint_size(*self),
    {
        match self {
            PrimitiveType::U8 => Some(8),
            PrimitiveType::U16 => Some(16),
            PrimitiveType::U32 => Some(32),
            PrimitiveType::U64 => Some(64),
            PrimitiveType::U128 => Some(128),
            _ => None,
        }
    }

    /// The width of a scalar float type.
    pub fn float_size(&self) -> (r: Option<u32>)
        ensures
            r == spec_float_size(*self),
    {
        match self {
            PrimitiveType::F32 => Some(32),
            PrimitiveType::F64 => Some(64),
            _ => None,
        }
    }

    /// The width of a scalar numeric type.
    pub fn number_size(&self) -> (r: Option<u32>)
        ensures
            r == spec_number_size(*self),
    {
        match self {
            PrimitiveType::I8 => Some(8),
            PrimitiveType::I16 => Some(16),
            PrimitiveType::I32 => Some(32),
            PrimitiveType::I64 => Some(64),
            PrimitiveType::I128 => Some(128),
            PrimitiveType::U8 => Some(8),
            PrimitiveType::U16 => Some(16),
            PrimitiveType::U32 => Some(32),
            PrimitiveType::U64 => Some(64),
            PrimitiveType::U128 => Some(128),
            PrimitiveType::F32 => Some(32),
            PrimitiveType::F64 => Some(64),
            _ => None,
        }
    }

    /// True for the scalar numeric types.
    pub fn is_numeric(&self) -> (b: bool)
        ensures
            b == spec_number_size(*self) is Some,
    {
        match self {
            PrimitiveType::I8 => true,
            PrimitiveType::I16 => true,
            PrimitiveType::I32 => true,
            PrimitiveType::I64 => true,
            PrimitiveType::I128 => true,
            PrimitiveType::U8 => true,
            PrimitiveType::U16 => true,
            PrimitiveType::U32 => true,
            PrimitiveType::U64 => true,
            PrimitiveType::U128 => true,
            PrimitiveType::F32 => true,
            PrimitiveType::F64 => true,
            _ => false,
        }
    }
}

/// No two primitive types share a name, so reading back the name of any
/// type but `()` with `from_str` gives that type.
pub proof fn lemma_primitive_names_distinct(a: PrimitiveType, b: PrimitiveType)
    requires
        primitive_name(a) == primitive_name(b),
    ensures
        a == b,
{
    let na = primitive_name(a);
    let nb = primitive_name(b);
    assert(na.len() == nb.len());
    assert(na[0] == nb[0]);
    if na.len() >= 2 {
        assert(na[1] == nb[1]);
    }
    if na.len() >= 3 {
        assert(na[2] == nb[2]);
    }
    if na.len() >= 4 {
        assert(na[3] == nb[3]);
    }
    if na.len() >= 5 {
        assert(na[4] == nb[4]);
    }
}

} // verus!
