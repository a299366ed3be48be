use vstd::prelude::*;

verus! {

/// A static type: what an annotation can name. It carries no data; only
/// `Struct` and `List` have a parameter.
#[derive(Debug)]
pub enum EFSType {
    Number,
    Byte,
    Short,
    Int,
    Long,
    Float,
    Double,
    String,
    Bool,
    Struct(String),
    List(Box<EFSType>),
    Dict,
    NBTByteArray,
    NBTIntArray,
    NBTLongArray,
    Nil,
}

/// The mathematical model of an [`EFSType`]: the same shape, with text as a
/// sequence of characters.
pub ghost enum TypeModel {
    Number,
    Byte,
    Short,
    Int,
    Long,
    Float,
    Double,
    String,
    Bool,
    Struct(Seq<char>),
    List(Box<TypeModel>),
    Dict,
    NBTByteArray,
    NBTIntArray,
    NBTLongArray,
    Nil,
}

impl View for EFSType {
    type V = TypeModel;

    open spec fn view(&self) -> TypeModel {
        self.model()
    }
}

impl EFSType {
    /// The model of this type, by recursion on its shape.
    pub open spec fn model(&self) -> TypeModel
        decreases self,
    {
        match self {
            EFSType::Number => TypeModel::Number,
            EFSType::Byte => TypeModel::Byte,
            EFSType::Short => TypeModel::Short,
            EFSType::Int => TypeModel::Int,
            EFSType::Long => TypeModel::Long,
            EFSType::Float => TypeModel::Float,
            EFSType::Double => TypeModel::Double,
            EFSType::String => TypeModel::String,
            EFSType::Bool => TypeModel::Bool,
            EFSType::Struct(name) => TypeModel::Struct(name@),
            EFSType::List(item) => TypeModel::List(Box::new(item.model())),
            EFSType::Dict => TypeModel::Dict,
            EFSType::NBTByteArray => TypeModel::NBTByteArray,
            EFSType::NBTIntArray => TypeModel::NBTIntArray,
            EFSType::NBTLongArray => TypeModel::NBTLongArray,
            EFSType::Nil => TypeModel::Nil,
        }
    }

    /// A copy of this type, built by recursion on its shape.
    pub fn duplicate(&self) -> (copy: EFSType)
        ensures
            copy@ == self@,
        decreases self,
    {
        match self {
            EFSType::Number => EFSType::Number,
            EFSType::Byte => EFSType::Byte,
            EFSType::Short => EFSType::Short,
            EFSType::Int => EFSType::Int,
            EFSType::Long => EFSType::Long,
            EFSType::Float => EFSType::Float,
            EFSType::Double => EFSType::Double,
            EFSType::String => EFSType::String,
            EFSType::Bool => EFSType::Bool,
            EFSType::Struct(name) => EFSType::Struct(name.clone()),
            EFSType::List(item) => EFSType::List(Box::new(item.duplicate())),
            EFSType::Dict => EFSType::Dict,
            EFSType::NBTByteArray => EFSType::NBTByteArray,
            EFSType::NBTIntArray => EFSType::NBTIntArray,
            EFSType::NBTLongArray => EFSType::NBTLongArray,
            EFSType::Nil => EFSType::Nil,
        }
    }

    /// Whether two types are the same type: equal shape and equal names.
    pub fn same(&self, other: &EFSType) -> (equal: bool)
        ensures
            equal == (self@ == other@),
        decreases self,
    {
        match (self, other) {
            (EFSType::Number, EFSType::Number) => true,
            (EFSType::Byte, EFSType::Byte) => true,
            (EFSType::Short, EFSType::Short) => true,
            (EFSType::Int, EFSType::Int) => true,
            (EFSType::Long, EFSType::Long) => true,
            (EFSType::Float, EFSType::Float) => true,
            (EFSType::Double, EFSType::Double) => true,
            (EFSType::String, EFSType::String) => true,
            (EFSType::Bool, EFSType::Bool) => true,
            (EFSType::Struct(a), EFSType::Struct(b)) => *a == *b,
            (EFSType::List(a), EFSType::List(b)) => a.same(b),
            (EFSType::Dict, EFSType::Dict) => true,
            (EFSType::NBTByteArray, EFSType::NBTByteArray) => true,
            (EFSType::NBTIntArray, EFSType::NBTIntArray) => true,
            (EFSType::NBTLongArray, EFSType::NBTLongArray) => true,
            (EFSType::Nil, EFSType::Nil) => true,
            _ => false,
        }
    }
}

impl Clone for EFSType {
    fn clone(&self) -> (copy: Self)
        ensures
            copy@ == self@,
    {
        self.duplicate()
    }
}

impl PartialEq for EFSType {
    fn eq(&self, other: &Self) -> (equal: bool) {
        self.same(other)
    }
}

impl vstd::std_specs::cmp::PartialEqSpecImpl for EFSType {
    open spec fn obeys_eq_spec() -> bool {
        true
    }

    open spec fn eq_spec(&self, other: &Self) -> bool {
        self@ == other@
    }
}

/// A literal: a type together with the datum written for it.
///
/// A `Float` and a `Double` hold the literal as it is written. A `Struct`
/// and a `Dict` hold their entries in the order in which they are written.
#[derive(Debug)]
pub enum EFSValueType {
    Number(i32),
    Byte(i8),
    Short(i16),
    Int(i32),
    Long(i64),
    Float(String),
    Double(String),
    String(String),
    Bool(bool),
    Struct(String, Vec<(String, EFSValueType)>),
    List(Vec<EFSValueType>),
    Dict(Vec<(String, EFSValueType)>),
    NBTByteArray(Vec<i8>),
    NBTIntArray(Vec<i32>),
    NBTLongArray(Vec<i64>),
    Nil,
}

/// The mathematical model of an [`EFSValueType`].
pub ghost enum LiteralModel {
    Number(i32),
    Byte(i8),
    Short(i16),
    Int(i32),
    Long(i64),
    Float(Seq<char>),
    Double(Seq<char>),
    String(Seq<char>),
    Bool(bool),
    Struct(Seq<char>, Seq<(Seq<char>, LiteralModel)>),
    List(Seq<LiteralModel>),
    Dict(Seq<(Seq<char>, LiteralModel)>),
    NBTByteArray(Seq<i8>),
    NBTIntArray(Seq<i32>),
    NBTLongArray(Seq<i64>),
    Nil,
}

impl EFSValueType {
    /// The model of this literal, by recursion on its shape.
    pub open spec fn model(&self) -> LiteralModel
        decreases self,
    {
        match self {
            EFSValueType::Number(n) => LiteralModel::Number(*n),
            EFSValueType::Byte(n) => LiteralModel::Byte(*n),
            EFSValueType::Short(n) => LiteralModel::Short(*n),
            EFSValueType::Int(n) => LiteralModel::Int(*n),
            EFSValueType::Long(n) => LiteralModel::Long(*n),
            EFSValueType::Float(literal) => LiteralModel::Float(literal@),
            EFSValueType::Double(literal) => LiteralModel::Double(literal@),
            EFSValueType::String(text) => LiteralModel::String(text@),
            EFSValueType::Bool(b) => LiteralModel::Bool(*b),
            EFSValueType::Struct(name, fields) => LiteralModel::Struct(
                name@,
                Seq::new(
                    fields.len() as nat,
                    |i: int|
                        if 0 <= i < fields.len() {
                            (fields[i].0@, fields[i].1.model())
                        } else {
                            (Seq::empty(), LiteralModel::Nil)
                        },
                ),
            ),
            EFSValueType::List(items) => LiteralModel::List(
                Seq::new(
                    items.len() as nat,
                    |i: int|
                        if 0 <= i < items.len() {
                            items[i].model()
                        } else {
                            LiteralModel::Nil
                        },
                ),
            ),
            EFSValueType::Dict(entries) => LiteralModel::Dict(
                Seq::new(
                    entries.len() as nat,
                    |i: int|
                        if 0 <= i < entries.len() {
                            (entries[i].0@, entries[i].1.model())
                        } else {
                            (Seq::empty(), LiteralModel::Nil)
                        },
                ),
            ),
            EFSValueType::NBTByteArray(items) => LiteralModel::NBTByteArray(items@),
            EFSValueType::NBTIntArray(items) => LiteralModel::NBTIntArray(items@),
            EFSValueType::NBTLongArray(items) => LiteralModel::NBTLongArray(items@),
            EFSValueType::Nil => LiteralModel::Nil,
        }
    }
}

impl View for EFSValueType {
    type V = LiteralModel;

    open spec fn view(&self) -> LiteralModel {
        self.model()
    }
}

} // verus!
