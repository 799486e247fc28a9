use vstd::prelude::*;

use crate::statements::StoredFormatExpression;

verus! {

/// A decoded value.
///
/// Floating point values are held as their IEEE 754 bit patterns.
#[derive(Debug, PartialEq)]
pub enum Value {
    Boolean(bool),
    /// `u64` in case host `usize` < target `usize`.
    Usize(u64),
    U8(u8),
    U16(u16),
    U32(u32),
    U64(u64),
    U128(u128),
    /// `i64` in case host `isize` < target `isize`.
    Isize(i64),
    I8(i8),
    I16(i16),
    I32(i32),
    I64(i64),
    I128(i128),
    F32(u32),
    F64(u64),
    Char(char),
    String(String),
    /// Reused for array, vec and slice holding both single and dyn values.
    List(Vec<Value>),
    Tuple(Vec<Value>),
    Type(TypeStructureValue),
    NestedFormatExpression {
        expression: String,
        append_newline: bool,
        decoded_values: DecodedValues,
    },
}

/// The arguments decoded for a format expression.
#[derive(Debug, Default, PartialEq)]
pub struct DecodedValues {
    pub positional: Vec<Value>,
    pub named: Vec<(String, Value)>,
}

/// A decoded value of a type with a registered structure.
#[derive(Debug, PartialEq)]
pub struct TypeStructureValue {
    pub name: String,
    pub variant: TypeStructureVariantValue,
}

#[derive(Debug, PartialEq)]
pub enum TypeStructureVariantValue {
    Struct(StructVariantValue),
    Enum((String, StructVariantValue)),
}

#[derive(Debug, PartialEq)]
pub enum StructVariantValue {
    Unit,
    Tuple(Vec<Value>),
    Named(Vec<(String, Value)>),
}

impl DecodedValues {
    /// No values yet, with room for those the expression expects.
    pub fn new_with_capacity(stored_expression: &StoredFormatExpression) -> (values: DecodedValues)
        ensures
            values.positional@.len() == 0,
            values.named@.len() == 0,
    {
        DecodedValues {
            positional: Vec::with_capacity(stored_expression.expected_positional_arg_count),
            named: Vec::with_capacity(stored_expression.expected_named_args.len()),
        }
    }

    /// Whether every argument the expression expects has been decoded.
    pub fn is_filled(&self, stored_expression: &StoredFormatExpression) -> (filled: bool)
        ensures
            filled == (self.positional@.len() == stored_expression.expected_positional_arg_count
                && self.named@.len() == stored_expression.expected_named_args@.len()),
    {
        self.positional.len() == stored_expression.expected_positional_arg_count
            && self.named.len() == stored_expression.expected_named_args.len()
    }

    /// Adds the next argument: positional ones come first, then the named
    /// ones, each under the name the expression gives it.
    pub fn push(&mut self, decoded_value: Value, stored_expression: &StoredFormatExpression)
        requires
            old(self).positional@.len() < stored_expression.expected_positional_arg_count
                || old(self).named@.len() < stored_expression.expected_named_args@.len(),
        ensures
            if old(self).positional@.len() < stored_expression.expected_positional_arg_count {
                &&& final(self).positional@ == old(self).positional@.push(decoded_value)
                &&& final(self).named@ == old(self).named@
            } else {
                &&& final(self).positional@ == old(self).positional@
                &&& final(self).named@ == old(self).named@.push(
                    (
                        stored_expression.expected_named_args@[old(self).named@.len() as int],
                        decoded_value,
                    ),
                )
            },
    {
        if self.positional.len() < stored_expression.expected_positional_arg_count {
            self.positional.push(decoded_value);
        } else {
            let next_identifier_index = self.named.len();
            let identifier = stored_expression.expected_named_args[next_identifier_index].clone();
            self.named.push((identifier, decoded_value));
        }
    }
}

/// The mathematical model of a decoded value.
pub enum ValueModel {
    Boolean(bool),
    Usize(u64),
    U8(u8),
    U16(u16),
    U32(u32),
    U64(u64),
    U128(u128),
    Isize(i64),
    I8(i8),
    I16(i16),
    I32(i32),
    I64(i64),
    I128(i128),
    F32(u32),
    F64(u64),
    Char(char),
    String(Seq<char>),
    List(Seq<ValueModel>),
    Tuple(Seq<ValueModel>),
    Type(TypeModel),
    NestedFormatExpression {
        expression: Seq<char>,
        append_newline: bool,
        decoded_values: DecodedValuesModel,
    },
}

pub struct DecodedValuesModel {
    pub positional: Seq<ValueModel>,
    pub named: Seq<(Seq<char>, ValueModel)>,
}

pub struct TypeModel {
    pub name: Seq<char>,
    pub variant: TypeVariantModel,
}

pub enum TypeVariantModel {
    Struct(StructModel),
    Enum(Seq<char>, StructModel),
}

pub enum StructModel {
    Unit,
    Tuple(Seq<ValueModel>),
    Named(Seq<(Seq<char>, ValueModel)>),
}

/// The models of a sequence of values, in order.
pub open spec fn model_of_values(vs: Seq<Value>) -> Seq<ValueModel>
    decreases vs,
{
    if vs.len() == 0 {
        Seq::empty()
    } else {
        model_of_values(vs.drop_last()).push(model_of_value(vs.last()))
    }
}

/// The models of a sequence of named values, in order.
pub open spec fn model_of_named(vs: Seq<(String, Value)>) -> Seq<(Seq<char>, ValueModel)>
    decreases vs,
{
    if vs.len() == 0 {
        Seq::empty()
    } else {
        model_of_named(vs.drop_last()).push((vs.last().0@, model_of_value(vs.last().1)))
    }
}

pub open spec fn model_of_struct(v: StructVariantValue) -> StructModel
    decreases v,
{
    match v {
        StructVariantValue::Unit => StructModel::Unit,
        StructVariantValue::Tuple(vs) => StructModel::Tuple(model_of_values(vs@)),
        StructVariantValue::Named(vs) => StructModel::Named(model_of_named(vs@)),
    }
}

pub open spec fn model_of_type(v: TypeStructureValue) -> TypeModel
    decreases v,
{
    TypeModel {
        name: v.name@,
        variant: match v.variant {
            TypeStructureVariantValue::Struct(s) => TypeVariantModel::Struct(model_of_struct(s)),
            TypeStructureVariantValue::Enum(e) => TypeVariantModel::Enum(e.0@, model_of_struct(e.1)),
        },
    }
}

pub open spec fn model_of_decoded(v: DecodedValues) -> DecodedValuesModel
    decreases v,
{
    DecodedValuesModel {
        positional: model_of_values(v.positional@),
        named: model_of_named(v.named@),
    }
}

/// The model of a decoded value.
pub open spec fn model_of_value(v: Value) -> ValueModel
    decreases v,
{
    match v {
        Value::Boolean(b) => ValueModel::Boolean(b),
        Value::Usize(n) => ValueModel::Usize(n),
        Value::U8(n) => ValueModel::U8(n),
        Value::U16(n) => ValueModel::U16(n),
        Value::U32(n) => ValueModel::U32(n),
        Value::U64(n) => ValueModel::U64(n),
        Value::U128(n) => ValueModel::U128(n),
        Value::Isize(n) => ValueModel::Isize(n),
        Value::I8(n) => ValueModel::I8(n),
        Value::I16(n) => ValueModel::I16(n),
        Value::I32(n) => ValueModel::I32(n),
        Value::I64(n) => ValueModel::I64(n),
        Value::I128(n) => ValueModel::I128(n),
        Value::F32(n) => ValueModel::F32(n),
        Value::F64(n) => ValueModel::F64(n),
        Value::Char(c) => ValueModel::Char(c),
        Value::String(s) => ValueModel::String(s@),
        Value::List(vs) => ValueModel::List(model_of_values(vs@)),
        Value::Tuple(vs) => ValueModel::Tuple(model_of_values(vs@)),
        Value::Type(t) => ValueModel::Type(model_of_type(t)),
        Value::NestedFormatExpression { expression, append_newline, decoded_values } =>
            ValueModel::NestedFormatExpression {
            expression: expression@,
            append_newline,
            decoded_values: model_of_decoded(decoded_values),
        },
    }
}

/// The model of a character value.
pub proof fn lemma_model_of_char(c: char)
    ensures
        model_of_value(Value::Char(c)) == ValueModel::Char(c),
{
}

/// The model of a value of a nested format expression.
pub proof fn lemma_model_of_nested(expression: String, append_newline: bool, decoded_values: DecodedValues)
    ensures
        model_of_value(Value::NestedFormatExpression { expression, append_newline, decoded_values })
            == (ValueModel::NestedFormatExpression {
            expression: expression@,
            append_newline,
            decoded_values: model_of_decoded(decoded_values),
        }),
{
}

/// The model of a value of a type with a registered structure.
pub proof fn lemma_model_of_type_value(t: TypeStructureValue)
    ensures
        model_of_value(Value::Type(t)) == ValueModel::Type(model_of_type(t)),
{
}

/// Appending a value to a vector appends its model.
pub proof fn lemma_model_of_values_push(vs: Seq<Value>, v: Value)
    ensures
        model_of_values(vs.push(v)) == model_of_values(vs).push(model_of_value(v)),
{
    assert(vs.push(v).drop_last() == vs);
}

/// The model of a sequence of values has its length, element by element.
pub proof fn lemma_model_of_values_index(vs: Seq<Value>)
    ensures
        model_of_values(vs).len() == vs.len(),
        forall|i: int| 0 <= i < vs.len() ==> #[trigger] model_of_values(vs)[i] == model_of_value(vs[i]),
    decreases vs.len(),
{
    if vs.len() > 0 {
        lemma_model_of_values_index(vs.drop_last());
    }
}

/// The model of a sequence of named values has its length, pair by pair.
pub proof fn lemma_model_of_named_index(vs: Seq<(String, Value)>)
    ensures
        model_of_named(vs).len() == vs.len(),
        forall|i: int|
            0 <= i < vs.len() ==> #[trigger] model_of_named(vs)[i] == (vs[i].0@, model_of_value(
                vs[i].1,
            )),
    decreases vs.len(),
{
    if vs.len() > 0 {
        lemma_model_of_named_index(vs.drop_last());
    }
}

} // verus!
