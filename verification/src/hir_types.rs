//! The types that procedure signatures of a library speak of, and their mathematical model.

use vstd::prelude::*;

verus! {

broadcast use vstd::std_specs::vec::group_vec_axioms;

/// The address space a pointer points into.
#[derive(Clone, Copy, Debug, PartialEq, Eq, Structural)]
pub enum AddressSpace {
    /// Byte-addressable memory.
    Byte,
    /// Memory addressed by field element.
    Element,
}

/// How the fields of a struct are laid out.
#[derive(Clone, Copy, Debug, PartialEq, Eq, Structural)]
pub enum TypeRepr {
    /// The default layout.
    Default,
    /// The default layout with at least the given (non-zero) alignment.
    Align(u16),
    /// A packed layout with the given (non-zero) alignment.
    Packed(u16),
    /// The layout of the single field.
    Transparent,
    /// A big-endian layout.
    BigEndian,
}

/// The calling convention of a function.
#[derive(Clone, Copy, Debug, PartialEq, Eq, Structural)]
pub enum CallConv {
    Fast,
    SystemV,
    Wasm,
    CanonLift,
    CanonLower,
    Kernel,
}

/// A type.
#[derive(Debug, PartialEq, Eq)]
pub enum Type {
    Unknown,
    Never,
    I1,
    I8,
    U8,
    I16,
    U16,
    I32,
    U32,
    I64,
    U64,
    I128,
    U128,
    U256,
    F64,
    Felt,
    Ptr(Box<PointerType>),
    Struct(Box<StructType>),
    Array(Box<ArrayType>),
    List(Box<Type>),
    Function(Box<FunctionType>),
}

/// A pointer type.
#[derive(Debug, PartialEq, Eq)]
pub struct PointerType {
    pub addrspace: AddressSpace,
    pub pointee: Type,
}

/// A struct type: its layout and the types of its fields, in order.
#[derive(Debug, PartialEq, Eq)]
pub struct StructType {
    pub repr: TypeRepr,
    pub fields: Vec<Type>,
}

/// An array type: the element type and the number of elements.
#[derive(Debug, PartialEq, Eq)]
pub struct ArrayType {
    pub ty: Type,
    pub len: usize,
}

/// A function type: its calling convention, parameter types and result types.
#[derive(Debug, PartialEq, Eq)]
pub struct FunctionType {
    pub abi: CallConv,
    pub params: Vec<Type>,
    pub results: Vec<Type>,
}

/// The mathematical model of a [`Type`]: the same tree, with sequences for lists of types.
pub enum TypeModel {
    Unknown,
    Never,
    I1,
    I8,
    U8,
    I16,
    U16,
    I32,
    U32,
    I64,
    U64,
    I128,
    U128,
    U256,
    F64,
    Felt,
    Ptr(AddressSpace, Box<TypeModel>),
    Struct(TypeRepr, Seq<TypeModel>),
    Array(Box<TypeModel>, usize),
    List(Box<TypeModel>),
    Function(FunctionModel),
}

/// The width in bits and the signedness of each fixed-width integer type that comes in both a
/// signed and an unsigned form.
pub open spec fn int_bits(m: TypeModel) -> Option<(nat, bool)> {
    match m {
        TypeModel::I8 => Some((8nat, true)),
        TypeModel::U8 => Some((8nat, false)),
        TypeModel::I16 => Some((16nat, true)),
        TypeModel::U16 => Some((16nat, false)),
        TypeModel::I32 => Some((32nat, true)),
        TypeModel::U32 => Some((32nat, false)),
        TypeModel::I64 => Some((64nat, true)),
        TypeModel::U64 => Some((64nat, false)),
        TypeModel::I128 => Some((128nat, true)),
        TypeModel::U128 => Some((128nat, false)),
        _ => None,
    }
}

/// The types that carry no other type, in the order in which [`Type`] declares them.
pub open spec fn scalar_types() -> Seq<TypeModel> {
    seq![
        TypeModel::Unknown,
        TypeModel::Never,
        TypeModel::I1,
        TypeModel::I8,
        TypeModel::U8,
        TypeModel::I16,
        TypeModel::U16,
        TypeModel::I32,
        TypeModel::U32,
        TypeModel::I64,
        TypeModel::U64,
        TypeModel::I128,
        TypeModel::U128,
        TypeModel::U256,
        TypeModel::F64,
        TypeModel::Felt,
    ]
}

/// The mathematical model of a [`FunctionType`].
pub struct FunctionModel {
    pub abi: CallConv,
    pub params: Seq<TypeModel>,
    pub results: Seq<TypeModel>,
}

impl Type {
    /// The model of this type.
    pub open spec fn model(self) -> TypeModel
        decreases self, 0nat,
    {
        match self {
            Type::Unknown => TypeModel::Unknown,
            Type::Never => TypeModel::Never,
            Type::I1 => TypeModel::I1,
            Type::I8 => TypeModel::I8,
            Type::U8 => TypeModel::U8,
            Type::I16 => TypeModel::I16,
            Type::U16 => TypeModel::U16,
            Type::I32 => TypeModel::I32,
            Type::U32 => TypeModel::U32,
            Type::I64 => TypeModel::I64,
            Type::U64 => TypeModel::U64,
            Type::I128 => TypeModel::I128,
            Type::U128 => TypeModel::U128,
            Type::U256 => TypeModel::U256,
            Type::F64 => TypeModel::F64,
            Type::Felt => TypeModel::Felt,
            Type::Ptr(p) => TypeModel::Ptr(p.addrspace, Box::new(p.pointee.model())),
            Type::Struct(s) => {
                proof {
                    assert(decreases_to!(s.fields => s.fields@));
                }
                TypeModel::Struct(s.repr, models(s.fields@))
            },
            Type::Array(a) => TypeModel::Array(Box::new(a.ty.model()), a.len),
            Type::List(t) => TypeModel::List(Box::new(t.model())),
            Type::Function(f) => TypeModel::Function(f.model()),
        }
    }
}

impl FunctionType {
    /// The model of this function type.
    pub open spec fn model(self) -> FunctionModel
        decreases self, 0nat,
    {
        proof {
            assert(decreases_to!(self.params => self.params@));
            assert(decreases_to!(self.results => self.results@));
        }
        FunctionModel { abi: self.abi, params: models(self.params@), results: models(self.results@) }
    }
}

/// The models of a sequence of types, in order.
pub open spec fn models(ts: Seq<Type>) -> Seq<TypeModel>
    decreases ts, 0nat,
{
    if ts.len() == 0 {
        Seq::empty()
    } else {
        seq![ts[0].model()] + models(ts.skip(1))
    }
}

/// The models of the types of `a + b` are those of `a`, then those of `b`.
pub proof fn lemma_models_append(a: Seq<Type>, b: Seq<Type>)
    ensures
        models(a + b) == models(a) + models(b),
    decreases a.len(),
{
    if a.len() == 0 {
        assert(a + b =~= b);
    } else {
        lemma_models_append(a.skip(1), b);
        assert((a + b).skip(1) =~= a.skip(1) + b);
        assert((a + b)[0] == a[0]);
    }
}

/// There is one model per type, each that type's model.
pub proof fn lemma_models_index(ts: Seq<Type>)
    ensures
        models(ts).len() == ts.len(),
        forall|i: int| 0 <= i < ts.len() ==> #[trigger] models(ts)[i] == ts[i].model(),
    decreases ts.len(),
{
    if ts.len() > 0 {
        lemma_models_index(ts.skip(1));
        assert forall|i: int| 0 <= i < ts.len() implies #[trigger] models(ts)[i] == ts[i].model() by {
            if i > 0 {
                assert(models(ts)[i] == models(ts.skip(1))[i - 1]);
                assert(ts.skip(1)[i - 1] == ts[i]);
            }
        }
    }
}

} // verus!
