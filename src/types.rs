use vstd::prelude::*;
use vstd::string::StringExecFns;

verus! {

/// Primitive types of the dataflow engine that a table schema can carry.
#[derive(Debug)]
pub enum Type {
    Any,
    Bool,
    Int,
    Float,
    Pointer,
    String,
    Bytes,
    DateTimeNaive,
    DateTimeUtc,
    Duration,
    Array(Option<usize>, Box<Type>),
    Json,
    Tuple(Vec<Type>),
    List(Box<Type>),
    PyObjectWrapper,
    Optional(Box<Type>),
}

/// Primitive column types of a log-structured (delta) table.
#[derive(Clone, Copy, Debug, PartialEq, Eq, Structural)]
pub enum DeltaPrimitiveType {
    Boolean,
    Long,
    Double,
    String,
    Binary,
    TimestampNtz,
    Timestamp,
}

/// Primitive column types of a snapshot-based (iceberg) table.
#[derive(Clone, Copy, Debug, PartialEq, Eq, Structural)]
pub enum IcebergPrimitiveType {
    Boolean,
    Long,
    Double,
    String,
    Binary,
    Timestamp,
    Timestamptz,
}

/// Strips every `Optional` wrapper off a type.
pub open spec fn unwrap_optional(t: Type) -> Type
    decreases t,
{
    match t {
        Type::Optional(inner) => unwrap_optional(*inner),
        _ => t,
    }
}

/// The delta column type of an engine type, if it has one.
pub open spec fn delta_type_of(t: Type) -> Option<DeltaPrimitiveType> {
    match unwrap_optional(t) {
        Type::Bool => Some(DeltaPrimitiveType::Boolean),
        Type::Float => Some(DeltaPrimitiveType::Double),
        Type::String | Type::Json => Some(DeltaPrimitiveType::String),
        Type::Bytes => Some(DeltaPrimitiveType::Binary),
        Type::DateTimeNaive => Some(DeltaPrimitiveType::TimestampNtz),
        Type::DateTimeUtc => Some(DeltaPrimitiveType::Timestamp),
        Type::Int | Type::Duration => Some(DeltaPrimitiveType::Long),
        _ => None,
    }
}

/// The iceberg column type of an engine type, if it has one.
pub open spec fn iceberg_type_of(t: Type) -> Option<IcebergPrimitiveType> {
    match unwrap_optional(t) {
        Type::Bool => Some(IcebergPrimitiveType::Boolean),
        Type::Float => Some(IcebergPrimitiveType::Double),
        Type::String | Type::Json => Some(IcebergPrimitiveType::String),
        Type::Bytes => Some(IcebergPrimitiveType::Binary),
        Type::DateTimeNaive => Some(IcebergPrimitiveType::Timestamp),
        Type::DateTimeUtc => Some(IcebergPrimitiveType::Timestamptz),
        Type::Int | Type::Duration => Some(IcebergPrimitiveType::Long),
        _ => None,
    }
}


/// Whether a value of the type may be absent.
pub open spec fn can_be_none_spec(t: Type) -> bool {
    t is Any || t is Optional
}

/// Two types are the same, component by component.
pub open spec fn same_type(a: Type, b: Type) -> bool
    decreases a,
{
    match a {
        Type::Array(n, x) => match b {
            Type::Array(m, y) => n == m && same_type(*x, *y),
            _ => false,
        },
        Type::Tuple(xs) => match b {
            Type::Tuple(ys) => xs@.len() == ys@.len() && forall|i: int|
                0 <= i < xs@.len() ==> same_type(#[trigger] xs@[i], ys@[i]),
            _ => false,
        },
        Type::List(x) => match b {
            Type::List(y) => same_type(*x, *y),
            _ => false,
        },
        Type::Optional(x) => match b {
            Type::Optional(y) => same_type(*x, *y),
            _ => false,
        },
        _ => a == b,
    }
}

impl Type {
    /// A structural copy of the type.
    pub fn duplicate(&self) -> (r: Type)
        ensures
            same_type(*self, r),
        decreases self,
    {
        match self {
            Type::Any => Type::Any,
            Type::Bool => Type::Bool,
            Type::Int => Type::Int,
            Type::Float => Type::Float,
            Type::Pointer => Type::Pointer,
            Type::String => Type::String,
            Type::Bytes => Type::Bytes,
            Type::DateTimeNaive => Type::DateTimeNaive,
            Type::DateTimeUtc => Type::DateTimeUtc,
            Type::Duration => Type::Duration,
            Type::Array(n, inner) => Type::Array(*n, Box::new(inner.duplicate())),
            Type::Json => Type::Json,
            Type::Tuple(items) => {
                let mut copies: Vec<Type> = Vec::new();
                for i in 0..items.len()
                    invariant
                        *self == Type::Tuple(*items),
                        copies@.len() == i,
                        forall|j: int| 0 <= j < i ==> same_type(#[trigger] items@[j], copies@[j]),
                {
                    proof {
                        vstd::std_specs::vec::axiom_vec_index_decreases(*items, i as int);
                        assert(decreases_to!(*self => self->Tuple_0));
                        assert(decreases_to!(*self => items[i as int]));
                    }
                    copies.push(items[i].duplicate());
                }
                Type::Tuple(copies)
            },
            Type::List(inner) => Type::List(Box::new(inner.duplicate())),
            Type::PyObjectWrapper => Type::PyObjectWrapper,
            Type::Optional(inner) => Type::Optional(Box::new(inner.duplicate())),
        }
    }

    pub fn can_be_none(&self) -> (r: bool)
        ensures
            r == can_be_none_spec(*self),
    {
        match self {
            Type::Any | Type::Optional(_) => true,
            _ => false,
        }
    }
}

/// A named column of an engine-level table schema.
#[derive(Debug)]
pub struct ValueField {
    pub name: String,
    pub type_: Type,
}

/// Errors raised while preparing or writing a table.
#[derive(Debug)]
pub enum WriteError {
    UnsupportedType(Type),
}

/// Maps an engine type to the delta column type that stores it.
pub fn delta_table_primitive_type(type_: &Type) -> (r: Result<DeltaPrimitiveType, WriteError>)
    ensures
        match delta_type_of(*type_) {
            Some(d) => r == Ok::<DeltaPrimitiveType, WriteError>(d),
            None => r matches Err(WriteError::UnsupportedType(u)) && same_type(unwrap_optional(*type_), u),
        },
    decreases *type_,
{
    match type_ {
        Type::Bool => Ok(DeltaPrimitiveType::Boolean),
        Type::Float => Ok(DeltaPrimitiveType::Double),
        Type::String | Type::Json => Ok(DeltaPrimitiveType::String),
        Type::Bytes => Ok(DeltaPrimitiveType::Binary),
        Type::DateTimeNaive => Ok(DeltaPrimitiveType::TimestampNtz),
        Type::DateTimeUtc => Ok(DeltaPrimitiveType::Timestamp),
        Type::Int | Type::Duration => Ok(DeltaPrimitiveType::Long),
        Type::Optional(wrapped) => delta_table_primitive_type(wrapped),
        _ => Err(WriteError::UnsupportedType(type_.duplicate())),
    }
}

/// Maps an engine type to the iceberg column type that stores it.
pub fn iceberg_type(type_: &Type) -> (r: Result<IcebergPrimitiveType, WriteError>)
    ensures
        match iceberg_type_of(*type_) {
            Some(d) => r == Ok::<IcebergPrimitiveType, WriteError>(d),
            None => r matches Err(WriteError::UnsupportedType(u)) && same_type(unwrap_optional(*type_), u),
        },
    decreases *type_,
{
    match type_ {
        Type::Bool => Ok(IcebergPrimitiveType::Boolean),
        Type::Float => Ok(IcebergPrimitiveType::Double),
        Type::String | Type::Json => Ok(IcebergPrimitiveType::String),
        Type::Bytes => Ok(IcebergPrimitiveType::Binary),
        Type::DateTimeNaive => Ok(IcebergPrimitiveType::Timestamp),
        Type::DateTimeUtc => Ok(IcebergPrimitiveType::Timestamptz),
        Type::Int | Type::Duration => Ok(IcebergPrimitiveType::Long),
        Type::Optional(wrapped) => iceberg_type(wrapped),
        _ => Err(WriteError::UnsupportedType(type_.duplicate())),
    }
}


/// A column of a delta table schema.
pub struct DeltaField {
    pub name: String,
    pub type_: DeltaPrimitiveType,
    pub nullable: bool,
}

/// A column of an iceberg table schema, numbered from 1.
pub struct IcebergField {
    pub id: i32,
    pub name: String,
    pub type_: IcebergPrimitiveType,
    pub required: bool,
}

/// Name of the first engine bookkeeping column appended to every written schema.
pub open spec fn time_column_name() -> Seq<char> {
    seq!['t', 'i', 'm', 'e']
}

/// Name of the second engine bookkeeping column appended to every written schema.
pub open spec fn diff_column_name() -> Seq<char> {
    seq!['d', 'i', 'f', 'f']
}

/// Every user field has a column type in the delta format.
pub open spec fn all_delta_mappable(fields: Seq<ValueField>) -> bool {
    forall|i: int| 0 <= i < fields.len() ==> (#[trigger] delta_type_of(fields[i].type_)) is Some
}

/// Every user field has a column type in the iceberg format.
pub open spec fn all_iceberg_mappable(fields: Seq<ValueField>) -> bool {
    forall|i: int| 0 <= i < fields.len() ==> (#[trigger] iceberg_type_of(fields[i].type_)) is Some
}

/// `cols` is the delta schema for `fields`: the user columns, then the bookkeeping columns.
pub open spec fn is_delta_schema(fields: Seq<ValueField>, cols: Seq<DeltaField>) -> bool {
    let n = fields.len() as int;
    &&& cols.len() == n + 2
    &&& forall|i: int|
        0 <= i < n ==> {
            &&& (#[trigger] cols[i]).name@ == fields[i].name@
            &&& Some(cols[i].type_) == delta_type_of(fields[i].type_)
            &&& cols[i].nullable == can_be_none_spec(fields[i].type_)
        }
    &&& cols[n].name@ == time_column_name()
    &&& cols[n].type_ == DeltaPrimitiveType::Long
    &&& !cols[n].nullable
    &&& cols[n + 1].name@ == diff_column_name()
    &&& cols[n + 1].type_ == DeltaPrimitiveType::Long
    &&& !cols[n + 1].nullable
}

/// `cols` is the iceberg schema for `fields`: the user columns, then the bookkeeping
/// columns, numbered 1, 2, ... in order; a user column is required exactly when its
/// value cannot be absent, and the bookkeeping columns are required.
pub open spec fn is_iceberg_schema(fields: Seq<ValueField>, cols: Seq<IcebergField>) -> bool {
    let n = fields.len() as int;
    &&& cols.len() == n + 2
    &&& forall|i: int| 0 <= i < n + 2 ==> (#[trigger] cols[i]).id == i + 1
    &&& forall|i: int|
        0 <= i < n ==> {
            &&& (#[trigger] cols[i]).name@ == fields[i].name@
            &&& Some(cols[i].type_) == iceberg_type_of(fields[i].type_)
            &&& cols[i].required == !can_be_none_spec(fields[i].type_)
        }
    &&& cols[n].required
    &&& cols[n + 1].required
    &&& cols[n].name@ == time_column_name()
    &&& cols[n].type_ == IcebergPrimitiveType::Long
    &&& cols[n + 1].name@ == diff_column_name()
    &&& cols[n + 1].type_ == IcebergPrimitiveType::Long
}

/// Builds the delta columns for a user schema followed by the bookkeeping columns.
pub fn delta_table_fields(fields: &Vec<ValueField>) -> (r: Result<Vec<DeltaField>, WriteError>)
    ensures
        r is Ok <==> all_delta_mappable(fields@),
        r matches Err(WriteError::UnsupportedType(u)) ==> exists|i: int|
            0 <= i < fields@.len() && all_delta_mappable(fields@.take(i)) && (#[trigger] delta_type_of(fields@[i].type_)) is None
                && same_type(unwrap_optional(fields@[i].type_), u),
        r matches Ok(cols) ==> is_delta_schema(fields@, cols@),
        r matches Err(e) ==> e is UnsupportedType,
{
    let mut cols: Vec<DeltaField> = Vec::new();
    for i in 0..fields.len()
        invariant
            cols@.len() == i,
            all_delta_mappable(fields@.take(i as int)),
            forall|j: int|
                0 <= j < i ==> {
                    &&& (#[trigger] cols@[j]).name@ == fields@[j].name@
                    &&& Some(cols@[j].type_) == delta_type_of(fields@[j].type_)
                    &&& cols@[j].nullable == can_be_none_spec(fields@[j].type_)
                },
    {
        let field = &fields[i];
        let type_ = match delta_table_primitive_type(&field.type_) {
            Ok(t) => t,
            Err(e) => {
                assert(!all_delta_mappable(fields@)) by {
                    assert(delta_type_of(fields@[i as int].type_) is None);
                }
                assert(delta_type_of(fields@[i as int].type_) is None);
                return Err(e);
            },
        };
        cols.push(DeltaField { name: field.name.clone(), type_, nullable: field.type_.can_be_none() });
        proof {
            assert forall|j: int| 0 <= j < i + 1 implies (#[trigger] delta_type_of(
                fields@.take(i + 1)[j].type_,
            )) is Some by {
                if j < i {
                    assert(fields@.take(i as int)[j] == fields@.take(i + 1)[j]);
                }
            }
        }
    }
    assert(fields@.take(fields@.len() as int) =~= fields@);
    proof {
        reveal_strlit("time");
        reveal_strlit("diff");
    }
    let ghost before = cols@;
    cols.push(DeltaField { name: String::from_str("time"), type_: DeltaPrimitiveType::Long, nullable: false });
    cols.push(DeltaField { name: String::from_str("diff"), type_: DeltaPrimitiveType::Long, nullable: false });
    assert(forall|j: int| 0 <= j < before.len() ==> cols@[j] == before[j]);
    assert(cols@[before.len() as int].name@ == time_column_name());
    assert(cols@[before.len() + 1int].name@ == diff_column_name());
    assert(is_delta_schema(fields@, cols@));
    Ok(cols)
}

/// Builds the iceberg columns for a user schema followed by the bookkeeping columns.
pub fn iceberg_schema_fields(fields: &[ValueField]) -> (r: Result<Vec<IcebergField>, WriteError>)
    requires
        fields@.len() + 2 <= i32::MAX,
    ensures
        r is Ok <==> all_iceberg_mappable(fields@),
        r matches Err(WriteError::UnsupportedType(u)) ==> exists|i: int|
            0 <= i < fields@.len() && all_iceberg_mappable(fields@.take(i)) && (#[trigger] iceberg_type_of(fields@[i].type_)) is None
                && same_type(unwrap_optional(fields@[i].type_), u),
        r matches Ok(cols) ==> is_iceberg_schema(fields@, cols@),
        r matches Err(e) ==> e is UnsupportedType,
{
    let mut cols: Vec<IcebergField> = Vec::new();
    for i in 0..fields.len()
        invariant
            fields@.len() + 2 <= i32::MAX,
            cols@.len() == i,
            all_iceberg_mappable(fields@.take(i as int)),
            forall|j: int| 0 <= j < i ==> (#[trigger] cols@[j]).id == j + 1,
            forall|j: int|
                0 <= j < i ==> {
                    &&& (#[trigger] cols@[j]).name@ == fields@[j].name@
                    &&& Some(cols@[j].type_) == iceberg_type_of(fields@[j].type_)
                    &&& cols@[j].required == !can_be_none_spec(fields@[j].type_)
                },
    {
        let field = &fields[i];
        let type_ = match iceberg_type(&field.type_) {
            Ok(t) => t,
            Err(e) => {
                assert(!all_iceberg_mappable(fields@)) by {
                    assert(iceberg_type_of(fields@[i as int].type_) is None);
                }
                assert(iceberg_type_of(fields@[i as int].type_) is None);
                return Err(e);
            },
        };
        cols.push(IcebergField { id: (i + 1) as i32, name: field.name.clone(), type_, required: !field.type_.can_be_none() });
        proof {
            assert forall|j: int| 0 <= j < i + 1 implies (#[trigger] iceberg_type_of(
                fields@.take(i + 1)[j].type_,
            )) is Some by {
                if j < i {
                    assert(fields@.take(i as int)[j] == fields@.take(i + 1)[j]);
                }
            }
        }
    }
    assert(fields@.take(fields@.len() as int) =~= fields@);
    proof {
        reveal_strlit("time");
        reveal_strlit("diff");
    }
    let n: usize = fields.len();
    let ghost before = cols@;
    cols.push(IcebergField { id: (n + 1) as i32, name: String::from_str("time"), type_: IcebergPrimitiveType::Long, required: true });
    cols.push(IcebergField { id: (n + 2) as i32, name: String::from_str("diff"), type_: IcebergPrimitiveType::Long, required: true });
    assert(forall|j: int| 0 <= j < before.len() ==> cols@[j] == before[j]);
    assert(cols@[before.len() as int].name@ == time_column_name());
    assert(cols@[before.len() + 1int].name@ == diff_column_name());
    assert(is_iceberg_schema(fields@, cols@));
    Ok(cols)
}

} // verus!
