//! Memory layouts of values: sizes, alignments and field offsets.

use crate::primitive::{PrimitiveType, spec_number_size};
use crate::types::{
    lemma_refers_lower, spec_unwrap, spec_unwrap_full, type_rank, valid_key, wf, AnyTypeKey, Types,
};
use vstd::prelude::*;

verus! {

/// `a` is a power of two.
pub open spec fn is_pow2(a: usize) -> bool {
    a > 0 && a & ((a - 1) as usize) == 0
}

/// The size and alignment of a value in memory.
#[derive(Debug, Clone, Copy, PartialEq, Eq, Structural)]
pub struct Layout {
    pub size: usize,
    pub align: usize,
}

impl Layout {
    /// A layout with the given size and alignment, taken as they are.
    pub fn from_size_align_unchecked(size: usize, align: usize) -> (l: Layout)
        ensures
            l.size == size,
            l.align == align,
    {
        Layout { size, align }
    }

    pub fn size(&self) -> (s: usize)
        ensures
            s == self.size,
    {
        self.size
    }

    pub fn align(&self) -> (a: usize)
        ensures
            a == self.align,
    {
        self.align
    }
}

/// Where a field of a compound value starts, in bytes.
#[derive(Debug, Clone, Copy, PartialEq, Eq, Structural)]
pub struct CompoundFieldLayout {
    pub offset: usize,
}

/// How a type is laid out in memory.
#[derive(Debug, Clone, PartialEq, Eq)]
pub enum LayoutOptions {
    Unsized { align: usize },
    Primitive(Layout),
    Compound(Vec<CompoundFieldLayout>, Layout),
    Void,
}

/// The size of a layout, when it has one.
pub open spec fn spec_size(l: LayoutOptions) -> Option<usize> {
    match l {
        LayoutOptions::Primitive(layout) => Some(layout.size),
        LayoutOptions::Compound(_, layout) => Some(layout.size),
        LayoutOptions::Unsized { .. } => None,
        LayoutOptions::Void => None,
    }
}

/// The alignment of a layout, when it has one.
pub open spec fn spec_align(l: LayoutOptions) -> Option<usize> {
    match l {
        LayoutOptions::Primitive(layout) => Some(layout.align),
        LayoutOptions::Compound(_, layout) => Some(layout.align),
        LayoutOptions::Unsized { align } => Some(align),
        LayoutOptions::Void => None,
    }
}

/// The underlying layout of a sized type.
pub open spec fn spec_layout(l: LayoutOptions) -> Option<Layout> {
    match l {
        LayoutOptions::Primitive(layout) => Some(layout),
        LayoutOptions::Compound(_, layout) => Some(layout),
        _ => None,
    }
}

impl LayoutOptions {
    pub fn size(&self) -> (s: Option<usize>)
        ensures
            s == spec_size(*self),
    {
        match self {
            LayoutOptions::Primitive(layout) | LayoutOptions::Compound(_, layout) => Some(
                layout.size(),
            ),
            LayoutOptions::Unsized { .. } => None,
            LayoutOptions::Void => None,
        }
    }

    pub fn align(&self) -> (a: Option<usize>)
        ensures
            a == spec_align(*self),
    {
        match self {
            LayoutOptions::Primitive(layout) | LayoutOptions::Compound(_, layout) => Some(
                layout.align(),
            ),
            LayoutOptions::Unsized { align } => Some(*align),
            LayoutOptions::Void => None,
        }
    }

    pub fn layout(&self) -> (l: Option<&Layout>)
        ensures
            match l {
                Some(x) => spec_layout(*self) == Some(*x),
                None => spec_layout(*self) is None,
            },
    {
        match self {
            LayoutOptions::Primitive(layout) | LayoutOptions::Compound(_, layout) => Some(layout),
            LayoutOptions::Unsized { .. } => None,
            LayoutOptions::Void => None,
        }
    }
}

/// `value` rounded up to the power of two `align`: the low bits below
/// `align` are cleared after adding `align - 1`.
pub open spec fn round_up(value: usize, align: usize) -> usize {
    ((value + align - 1) as usize) & !((align - 1) as usize)
}

/// Rounds `value` up to a multiple of the power of two `align`: the result
/// is the least multiple of `align` (its bits below `align` are clear) that
/// is not below `value`.
pub fn align_up(value: usize, align: usize) -> (r: usize)
    requires
        is_pow2(align),
        value + align - 1 <= usize::MAX,
    ensures
        r == round_up(value, align),
        r & ((align - 1) as usize) == 0,
        value <= r < value + align,
{
    let m = align - 1;
    let sum = value + m;
    let r = sum & !m;
    assert(r <= sum && sum - r == sum & m && sum & m <= m && r & m == 0) by (bit_vector)
        requires
            r == sum & !m,
    ;
    r
}

/// The size in bytes of a scalar primitive type.
pub open spec fn spec_size_of_prim(p: PrimitiveType) -> usize {
    match p {
        PrimitiveType::I8 | PrimitiveType::U8 | PrimitiveType::Bool => 1,
        PrimitiveType::I16 | PrimitiveType::U16 => 2,
        PrimitiveType::I32 | PrimitiveType::U32 | PrimitiveType::F32 | PrimitiveType::Char => 4,
        PrimitiveType::I64 | PrimitiveType::U64 | PrimitiveType::F64 => 8,
        _ => 16,
    }
}

/// The primitive types that have a fixed scalar size: integers, scalar
/// floats, `char` and `bool`.
pub open spec fn has_scalar_size(p: PrimitiveType) -> bool {
    match p {
        PrimitiveType::F32x2 | PrimitiveType::F64x2 | PrimitiveType::F32x4
        | PrimitiveType::F64x4 | PrimitiveType::Void | PrimitiveType::EntityRef => false,
        _ => true,
    }
}

/// The size in bytes of a scalar primitive type.
pub fn size_of_prim(prim: PrimitiveType) -> (s: usize)
    requires
        has_scalar_size(prim),
    ensures
        s == spec_size_of_prim(prim),
{
    match prim {
        PrimitiveType::I8 | PrimitiveType::U8 | PrimitiveType::Bool => 1,
        PrimitiveType::I16 | PrimitiveType::U16 => 2,
        PrimitiveType::I32 | PrimitiveType::U32 | PrimitiveType::F32 | PrimitiveType::Char => 4,
        PrimitiveType::I64 | PrimitiveType::U64 | PrimitiveType::F64 => 8,
        _ => 16,
    }
}

/// The field offsets, the end of the last field and the largest alignment
/// of a compound laid out field after field, each field placed at the next
/// multiple of its alignment.
pub open spec fn struct_fold(fs: Seq<LayoutOptions>) -> (Seq<usize>, usize, usize)
    decreases fs.len(),
{
    if fs.len() == 0 {
        (seq![], 0, 1)
    } else {
        let prev = struct_fold(fs.drop_last());
        let a = spec_align(fs.last())->0;
        let off = round_up(prev.1, a);
        (prev.0.push(off), (off + spec_size(fs.last())->0) as usize, if prev.2 < a {
            a
        } else {
            prev.2
        })
    }
}

/// Every field has a size and a power-of-two alignment, and laying them
/// out one after the other stays within `usize`.
pub open spec fn struct_fits(fs: Seq<LayoutOptions>) -> bool
    decreases fs.len(),
{
    fs.len() == 0 || {
        let prev = struct_fold(fs.drop_last());
        let a = spec_align(fs.last())->0;
        &&& struct_fits(fs.drop_last())
        &&& spec_size(fs.last()) is Some
        &&& is_pow2(a)
        &&& prev.1 + a - 1 <= usize::MAX
        &&& round_up(prev.1, a) + spec_size(fs.last())->0 <= usize::MAX
    }
}

/// The position of the first field without a size, if any.
pub open spec fn first_unsized(fs: Seq<LayoutOptions>) -> Option<int> {
    if exists|i: int| is_first_unsized(fs, i) {
        Some(choose|i: int| is_first_unsized(fs, i))
    } else {
        None
    }
}

/// Field `i` has no size and every field before it has one.
pub open spec fn is_first_unsized(fs: Seq<LayoutOptions>, i: int) -> bool {
    &&& 0 <= i < fs.len()
    &&& spec_size(fs[i]) is None
    &&& forall|j: int| 0 <= j < i ==> spec_size(#[trigger] fs[j]) is Some
}

proof fn lemma_first_unsized(fs: Seq<LayoutOptions>)
    ensures
        match first_unsized(fs) {
            Some(k) => is_first_unsized(fs, k),
            None => forall|i: int| 0 <= i < fs.len() ==> spec_size(#[trigger] fs[i]) is Some,
        },
{
    if first_unsized(fs) is None {
        assert forall|i: int| 0 <= i < fs.len() implies spec_size(#[trigger] fs[i]) is Some by {
            lemma_no_first_unsized(fs, i);
        }
    }
}

proof fn lemma_no_first_unsized(fs: Seq<LayoutOptions>, i: int)
    requires
        !exists|k: int| is_first_unsized(fs, k),
        0 <= i < fs.len(),
    ensures
        spec_size(fs[i]) is Some,
    decreases i,
{
    assert forall|j: int| 0 <= j < i implies spec_size(#[trigger] fs[j]) is Some by {
        lemma_no_first_unsized(fs, j);
    }
    if spec_size(fs[i]) is None {
        assert(is_first_unsized(fs, i));
    }
}

/// A field has no size.
#[derive(Debug, Clone, Copy, PartialEq, Eq, Structural)]
pub enum LayoutError {
    TypeIsUnsized(usize),
}

proof fn lemma_struct_fits_prefix(fs: Seq<LayoutOptions>, n: int)
    requires
        struct_fits(fs),
        0 <= n <= fs.len(),
    ensures
        struct_fits(fs.take(n)),
        forall|i: int| 0 <= i < n ==> spec_size(#[trigger] fs[i]) is Some,
    decreases fs.len() - n,
{
    if n < fs.len() {
        assert(fs.take(n + 1).drop_last() =~= fs.take(n));
        lemma_struct_fits_prefix(fs, n + 1);
        assert(fs.take(n + 1).last() == fs[n]);
    } else {
        assert(fs.take(n) =~= fs);
        lemma_all_sized(fs);
    }
}

proof fn lemma_all_sized(fs: Seq<LayoutOptions>)
    requires
        struct_fits(fs),
    ensures
        forall|i: int| 0 <= i < fs.len() ==> spec_size(#[trigger] fs[i]) is Some,
    decreases fs.len(),
{
    if fs.len() > 0 {
        lemma_all_sized(fs.drop_last());
        assert forall|i: int| 0 <= i < fs.len() implies spec_size(#[trigger] fs[i]) is Some by {
            if i < fs.len() - 1 {
                assert(fs[i] == fs.drop_last()[i]);
            }
        }
    }
}

proof fn lemma_round_up(v: usize, a: usize)
    requires
        is_pow2(a),
        v + a - 1 <= usize::MAX,
    ensures
        round_up(v, a) & ((a - 1) as usize) == 0,
        v <= round_up(v, a) < v + a,
{
    let m = (a - 1) as usize;
    let sum = (v + m) as usize;
    let r = sum & !m;
    assert(r <= sum && sum - r == sum & m && sum & m <= m && r & m == 0) by (bit_vector)
        requires
            r == sum & !m,
    ;
}

/// Laying out a compound places every field at a multiple of its
/// alignment, each field after the end of the one before, and ends at the
/// end of the last field; the compound's alignment is a power of two not
/// below any field's alignment.
pub proof fn lemma_struct_layout_sound(fs: Seq<LayoutOptions>)
    requires
        struct_fits(fs),
    ensures
        struct_fold(fs).0.len() == fs.len(),
        forall|i: int|
            0 <= i < fs.len() ==> #[trigger] struct_fold(fs).0[i] & ((spec_align(fs[i])->0 - 1) as usize) == 0,
        forall|i: int|
            0 <= i < fs.len() - 1 ==> struct_fold(fs).0[i] + spec_size(fs[i])->0 <= #[trigger] struct_fold(
                fs,
            ).0[i + 1],
        fs.len() > 0 ==> struct_fold(fs).0.last() + spec_size(fs.last())->0 == struct_fold(fs).1,
        fs.len() == 0 ==> struct_fold(fs).1 == 0,
        is_pow2(struct_fold(fs).2),
        forall|i: int| 0 <= i < fs.len() ==> spec_align(#[trigger] fs[i])->0 <= struct_fold(fs).2,
    decreases fs.len(),
{
    if fs.len() == 0 {
        assert(is_pow2(1usize)) by (bit_vector);
    } else {
        let rest = fs.drop_last();
        lemma_struct_layout_sound(rest);
        let prev = struct_fold(rest);
        let a = spec_align(fs.last())->0;
        lemma_round_up(prev.1, a);
        let cur = struct_fold(fs);
        assert forall|i: int| 0 <= i < fs.len() implies #[trigger] cur.0[i] & ((spec_align(fs[i])->0 - 1) as usize)
            == 0 by {
            if i < fs.len() - 1 {
                assert(cur.0[i] == prev.0[i]);
                assert(fs[i] == rest[i]);
            }
        }
        assert forall|i: int| 0 <= i < fs.len() - 1 implies cur.0[i] + spec_size(fs[i])->0 <= #[trigger] cur.0[i
            + 1] by {
            assert(cur.0[i] == prev.0[i]);
            assert(fs[i] == rest[i]);
            if i < fs.len() - 2 {
                assert(cur.0[i + 1] == prev.0[i + 1]);
            } else {
                assert(rest.last() == fs[i]);
                assert(prev.0.last() == prev.0[i]);
            }
        }
        assert forall|i: int| 0 <= i < fs.len() implies spec_align(#[trigger] fs[i])->0 <= cur.2 by {
            if i < fs.len() - 1 {
                assert(fs[i] == rest[i]);
            }
        }
    }
}

/// The offsets of the fields of a compound value laid out in order, and
/// the layout of the whole: its alignment is the largest field alignment
/// and its size the end of the last field rounded up to that alignment.
/// Fails on the first field that has no size.
pub fn struct_layout(fields: &[LayoutOptions]) -> (r: Result<(Vec<CompoundFieldLayout>, Layout), LayoutError>)
    requires
        ({
            let fs = fields@;
            match first_unsized(fs) {
                None => struct_fits(fs) && struct_fold(fs).1 + struct_fold(fs).2 - 1 <= usize::MAX,
                Some(k) => struct_fits(fs.take(k)) && match fs[k] {
                    LayoutOptions::Unsized { align } => is_pow2(align) && struct_fold(fs.take(k)).1
                        + align - 1 <= usize::MAX,
                    _ => true,
                },
            }
        }),
    ensures
        match r {
            Ok((offsets, layout)) => {
                &&& first_unsized(fields@) is None
                &&& offsets@.map_values(|f: CompoundFieldLayout| f.offset) == struct_fold(fields@).0
                &&& layout.align == struct_fold(fields@).2
                &&& layout.size == round_up(struct_fold(fields@).1, struct_fold(fields@).2)
            },
            Err(LayoutError::TypeIsUnsized(k)) => first_unsized(fields@) == Some(k as int),
        },
{
    let ghost fs = fields@;
    let mut field_layouts: Vec<CompoundFieldLayout> = Vec::new();
    let mut offset: usize = 0;
    let mut max_align: usize = 1;
    let mut i: usize = 0;
    proof {
        assert(fs.take(0) =~= Seq::<LayoutOptions>::empty());
        assert(1usize & 0usize == 0) by (bit_vector);
        lemma_first_unsized(fs);
    }
    while i < fields.len()
        invariant
            fs == fields@,
            0 <= i <= fs.len(),
            forall|j: int| 0 <= j < i ==> spec_size(#[trigger] fs[j]) is Some,
            struct_fits(fs.take(i as int)),
            field_layouts@.map_values(|f: CompoundFieldLayout| f.offset) == struct_fold(
                fs.take(i as int),
            ).0,
            offset == struct_fold(fs.take(i as int)).1,
            max_align == struct_fold(fs.take(i as int)).2,
            is_pow2(max_align),
            match first_unsized(fs) {
                None => struct_fits(fs) && struct_fold(fs).1 + struct_fold(fs).2 - 1 <= usize::MAX,
                Some(k) => i <= k && struct_fits(fs.take(k)) && match fs[k] {
                    LayoutOptions::Unsized { align } => is_pow2(align) && struct_fold(fs.take(k)).1
                        + align - 1 <= usize::MAX,
                    _ => true,
                },
            },
        decreases fs.len() - i,
    {
        let layout = &fields[i];
        let ghost next = fs.take(i + 1);
        proof {
            assert(next.drop_last() =~= fs.take(i as int));
            assert(next.last() == fs[i as int]);
        }
        let align = match layout.align() {
            Some(a) => a,
            None => {
                proof {
                    assert(spec_size(fs[i as int]) is None);
                    assert(is_first_unsized(fs, i as int));
                    lemma_first_unsized(fs);
                }
                return Err(LayoutError::TypeIsUnsized(i));
            },
        };
        proof {
            lemma_first_unsized(fs);
            match first_unsized(fs) {
                None => {
                    lemma_struct_fits_prefix(fs, i + 1);
                },
                Some(k) => {
                    if k > i {
                        lemma_struct_fits_prefix(fs.take(k), i + 1);
                        assert(fs.take(k).take(i + 1) =~= next);
                    } else {
                        assert(spec_size(fs[i as int]) is None);
                    }
                },
            }
        }
        if max_align < align {
            max_align = align;
        }
        offset = align_up(offset, align);
        field_layouts.push(CompoundFieldLayout { offset });
        let size = match layout.size() {
            Some(s) => s,
            None => {
                proof {
                    assert(is_first_unsized(fs, i as int));
                    lemma_first_unsized(fs);
                }
                return Err(LayoutError::TypeIsUnsized(i));
            },
        };
        offset = offset + size;
        i = i + 1;
        proof {
            assert(field_layouts@.map_values(|f: CompoundFieldLayout| f.offset) =~= struct_fold(
                fs.take(i as int),
            ).0);
        }
    }
    proof {
        assert(fs.take(i as int) =~= fs);
        lemma_first_unsized(fs);
    }
    let size = align_up(offset, max_align);
    Ok((field_layouts, Layout::from_size_align_unchecked(size, max_align)))
}


/// Layouts already worked out, by type.
#[derive(Debug)]
pub struct Layouts(pub Vec<(AnyTypeKey, LayoutOptions)>);

/// The layout of a primitive type: a scalar is aligned to its size, a
/// vector to its whole size (element size times lanes); `()` has no
/// layout.
pub open spec fn primitive_layout(p: PrimitiveType) -> LayoutOptions {
    match p {
        PrimitiveType::F32x2 => LayoutOptions::Primitive(Layout { size: 8, align: 8 }),
        PrimitiveType::F64x2 => LayoutOptions::Primitive(Layout { size: 16, align: 16 }),
        PrimitiveType::F32x4 => LayoutOptions::Primitive(Layout { size: 16, align: 16 }),
        PrimitiveType::F64x4 => LayoutOptions::Primitive(Layout { size: 32, align: 32 }),
        PrimitiveType::Void => LayoutOptions::Void,
        _ => LayoutOptions::Primitive(Layout { size: spec_size_of_prim(p), align: spec_size_of_prim(p) }),
    }
}

/// A scalar number takes as many bytes as its width has bits divided by
/// eight, and is aligned to its size: `u64`, `i64` and `f64` take eight
/// bytes, `u8` one; so does its layout, on any target.
pub proof fn lemma_number_sizes(p: PrimitiveType)
    requires
        spec_number_size(p) is Some,
    ensures
        spec_size_of_prim(p) * 8 == spec_number_size(p)->Some_0,
        primitive_layout(p) == LayoutOptions::Primitive(
            Layout { size: (spec_number_size(p)->Some_0 / 8) as usize, align: (spec_number_size(p)->Some_0 / 8) as usize },
        ),
{
}

/// The layout of a scalar number type in a well-formed store is its size in
/// bytes (its width over eight), aligned to that size.
pub proof fn lemma_number_layout(types: Types, p: PrimitiveType, pointer_bytes: u8)
    requires
        wf(types),
        spec_number_size(p) is Some,
    ensures
        spec_layout_of(types, AnyTypeKey::Primitive(p), pointer_bytes) == LayoutOptions::Primitive(
            Layout { size: (spec_number_size(p)->Some_0 / 8) as usize, align: (spec_number_size(p)->Some_0 / 8) as usize },
        ),
{
    lemma_number_sizes(p);
    assert(valid_key(types, AnyTypeKey::Primitive(p)));
    assert(spec_unwrap_full(types, AnyTypeKey::Primitive(p)) == AnyTypeKey::Primitive(p));
}

/// Unwrapping aliases keeps a key valid and does not raise its rank.
pub proof fn lemma_unwrap_full_rank(types: Types, k: AnyTypeKey)
    requires
        wf(types),
        valid_key(types, k),
    ensures
        valid_key(types, spec_unwrap_full(types, k)),
        type_rank(types, spec_unwrap_full(types, k)) <= type_rank(types, k),
        spec_unwrap(types, spec_unwrap_full(types, k)) is None,
    decreases type_rank(types, k),
{
    match spec_unwrap(types, k) {
        Some(n) => {
            lemma_refers_lower(types, k, n);
            lemma_unwrap_full_rank(types, n);
        },
        None => {},
    }
}

/// The types whose layout is known: after unwrapping aliases, a primitive
/// other than `entity`, a function or a reference, or an enumeration whose
/// representation has a known layout.
pub open spec fn layout_known(types: Types, ty: AnyTypeKey) -> bool
    decreases type_rank(types, ty),
    when wf(types) && valid_key(types, ty)
{
    let t = spec_unwrap_full(types, ty);
    match t {
        AnyTypeKey::Primitive(p) => p != PrimitiveType::EntityRef,
        AnyTypeKey::Function(_) | AnyTypeKey::Reference(_) => true,
        AnyTypeKey::Enum(i) => {
            let repr = types.enums@[i as int].repr;
            proof {
                lemma_unwrap_full_rank(types, ty);
                lemma_refers_lower(types, t, repr);
            }
            layout_known(types, repr)
        },
        _ => false,
    }
}

/// The layout of a type on a target whose pointers take `pointer_bytes`
/// bytes: that of the type it unwraps to; functions and references are
/// pointers, aligned to their size; an enumeration is laid out as its
/// representation.
pub open spec fn spec_layout_of(types: Types, ty: AnyTypeKey, pointer_bytes: u8) -> LayoutOptions
    decreases type_rank(types, ty),
    when wf(types) && valid_key(types, ty)
{
    let t = spec_unwrap_full(types, ty);
    match t {
        AnyTypeKey::Primitive(p) => primitive_layout(p),
        AnyTypeKey::Function(_) | AnyTypeKey::Reference(_) => LayoutOptions::Primitive(
            Layout { size: pointer_bytes as usize, align: pointer_bytes as usize },
        ),
        AnyTypeKey::Enum(i) => {
            let repr = types.enums@[i as int].repr;
            proof {
                lemma_unwrap_full_rank(types, ty);
                lemma_refers_lower(types, t, repr);
            }
            spec_layout_of(types, repr, pointer_bytes)
        },
        _ => LayoutOptions::Void,
    }
}

/// Every remembered layout is the layout of its type.
pub open spec fn cache_ok(cache: Seq<(AnyTypeKey, LayoutOptions)>, types: Types, pointer_bytes: u8) -> bool {
    forall|j: int|
        0 <= j < cache.len() ==> valid_key(types, (#[trigger] cache[j]).0) && cache[j].1 == spec_layout_of(
            types,
            cache[j].0,
            pointer_bytes,
        )
}

/// Some layout of `t` is remembered.
pub open spec fn cached(cache: Seq<(AnyTypeKey, LayoutOptions)>, t: AnyTypeKey) -> bool {
    exists|j: int| 0 <= j < cache.len() && (#[trigger] cache[j]).0 == t
}

/// The primitive types whose layouts are remembered: `void` and the
/// vectors.
pub open spec fn primitive_cached(p: PrimitiveType) -> bool {
    p == PrimitiveType::Void || p == PrimitiveType::F32x2 || p == PrimitiveType::F64x2 || p == PrimitiveType::F32x4
        || p == PrimitiveType::F64x4
}

/// The cache `new` holds the entries of `old`, first and in order.
pub open spec fn cache_grows(new: Seq<(AnyTypeKey, LayoutOptions)>, old: Seq<(AnyTypeKey, LayoutOptions)>) -> bool {
    old.len() <= new.len() && new.take(old.len() as int) == old
}

proof fn lemma_layout_of_unwrapped(types: Types, ty: AnyTypeKey, pointer_bytes: u8)
    requires
        wf(types),
        valid_key(types, ty),
    ensures
        spec_layout_of(types, spec_unwrap_full(types, ty), pointer_bytes) == spec_layout_of(types, ty, pointer_bytes),
        layout_known(types, spec_unwrap_full(types, ty)) == layout_known(types, ty),
{
    lemma_unwrap_full_rank(types, ty);
    let t = spec_unwrap_full(types, ty);
    assert(spec_unwrap_full(types, t) == t);
}

/// A layout that is not compound, copied.
fn copy_layout(l: &LayoutOptions) -> (r: LayoutOptions)
    requires
        !(*l is Compound),
    ensures
        r == *l,
{
    match l {
        LayoutOptions::Unsized { align } => LayoutOptions::Unsized { align: *align },
        LayoutOptions::Primitive(p) => LayoutOptions::Primitive(*p),
        LayoutOptions::Void => LayoutOptions::Void,
        LayoutOptions::Compound(..) => vstd::pervasive::unreached(),
    }
}

proof fn lemma_layout_not_compound(types: Types, ty: AnyTypeKey, pointer_bytes: u8)
    requires
        wf(types),
        valid_key(types, ty),
    ensures
        !(spec_layout_of(types, ty, pointer_bytes) is Compound),
    decreases type_rank(types, ty),
{
    let t = spec_unwrap_full(types, ty);
    lemma_unwrap_full_rank(types, ty);
    if let AnyTypeKey::Enum(i) = t {
        let repr = types.enums@[i as int].repr;
        lemma_refers_lower(types, t, repr);
        lemma_layout_not_compound(types, repr, pointer_bytes);
    }
}

impl Layouts {
    /// The layout of `ty` on a target whose pointers take `pointer_bytes`
    /// bytes (see `spec_layout_of`); layouts worked out for types other
    /// than primitives are remembered.
    pub fn of(&mut self, ty: &AnyTypeKey, types: &Types, pointer_bytes: u8) -> (r: LayoutOptions)
        requires
            wf(*types),
            valid_key(*types, *ty),
            layout_known(*types, *ty),
            cache_ok(old(self).0@, *types, pointer_bytes),
        ensures
            r == spec_layout_of(*types, *ty, pointer_bytes),
            cache_ok(final(self).0@, *types, pointer_bytes),
            cache_grows(final(self).0@, old(self).0@),
            ({
                let t = spec_unwrap_full(*types, *ty);
                if cached(old(self).0@, t) {
                    final(self).0@ == old(self).0@
                } else {
                    match t {
                        AnyTypeKey::Primitive(p) => if primitive_cached(p) {
                            final(self).0@ == old(self).0@.push((t, r))
                        } else {
                            final(self).0@ == old(self).0@
                        },
                        AnyTypeKey::Function(_) | AnyTypeKey::Reference(_) => final(self).0@ == old(self).0@.push((t, r)),
                        _ => final(self).0@.len() > old(self).0@.len() && final(self).0@.last() == (t, r),
                    }
                }
            }),
        decreases type_rank(*types, *ty),
    {
        let t = ty.unwrap_full(types);
        proof {
            lemma_layout_of_unwrapped(*types, *ty, pointer_bytes);
            lemma_unwrap_full_rank(*types, *ty);
        }
        assert(old(self).0@.take(old(self).0@.len() as int) =~= old(self).0@);
        let mut j: usize = 0;
        while j < self.0.len()
            invariant
                j <= self.0@.len(),
                self.0@ == old(self).0@,
                old(self).0@.take(old(self).0@.len() as int) == old(self).0@,
                wf(*types),
                valid_key(*types, t),
                spec_layout_of(*types, t, pointer_bytes) == spec_layout_of(*types, *ty, pointer_bytes),
                cache_ok(self.0@, *types, pointer_bytes),
                t == spec_unwrap_full(*types, *ty),
                forall|m: int| 0 <= m < j ==> (#[trigger] self.0@[m]).0 != t,
            decreases self.0@.len() - j,
        {
            if self.0[j].0 == t {
                proof {
                    assert(cached(self.0@, t));
                }
                proof {
                    lemma_layout_not_compound(*types, t, pointer_bytes);
                }
                return copy_layout(&self.0[j].1);
            }
            j = j + 1;
        }
        assert(!cached(old(self).0@, t));
        let l = match t {
            AnyTypeKey::Primitive(p) => {
                match p {
                    PrimitiveType::Void => LayoutOptions::Void,
                    PrimitiveType::F32x2 => LayoutOptions::Primitive(Layout::from_size_align_unchecked(8, 8)),
                    PrimitiveType::F64x2 => LayoutOptions::Primitive(Layout::from_size_align_unchecked(16, 16)),
                    PrimitiveType::F32x4 => LayoutOptions::Primitive(Layout::from_size_align_unchecked(16, 16)),
                    PrimitiveType::F64x4 => LayoutOptions::Primitive(Layout::from_size_align_unchecked(32, 32)),
                    _ => {
                        let v = size_of_prim(p);
                        return LayoutOptions::Primitive(Layout::from_size_align_unchecked(v, v));
                    },
                }
            },
            AnyTypeKey::Function(_) | AnyTypeKey::Reference(_) => LayoutOptions::Primitive(
                Layout::from_size_align_unchecked(pointer_bytes as usize, pointer_bytes as usize),
            ),
            AnyTypeKey::Enum(key) => {
                let repr = types.enums[key].repr;
                proof {
                    lemma_refers_lower(*types, t, repr);
                }
                self.of(&repr, types, pointer_bytes)
            },
            _ => vstd::pervasive::unreached(),
        };
        proof {
            lemma_layout_not_compound(*types, t, pointer_bytes);
        }
        let kept = copy_layout(&l);
        let ghost before = self.0@;
        self.0.push((t, kept));
        proof {
            assert(self.0@.take(old(self).0@.len() as int) =~= before.take(old(self).0@.len() as int));
            assert forall|j: int| 0 <= j < self.0@.len() implies valid_key(*types, (#[trigger] self.0@[j]).0)
                && self.0@[j].1 == spec_layout_of(*types, self.0@[j].0, pointer_bytes) by {
                if j < self.0@.len() - 1 {
                    assert(self.0@[j] == before[j]);
                }
            }
        }
        l
    }
}

} // verus!
