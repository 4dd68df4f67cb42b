//! Typed values of the module runtime, their types, and the JSON-shaped tree
//! that workflows pass between steps.

use vstd::prelude::*;

verus! {

/// The type of a runtime value.
#[derive(Debug)]
pub enum ValType {
    Bool,
    S8,
    U8,
    S16,
    U16,
    S32,
    U32,
    S64,
    U64,
    Char,
    Str,
    List(Box<ValType>),
    /// Fields by name, in declaration order.
    Record(Vec<(String, ValType)>),
    Tuple(Vec<ValType>),
    /// Cases by name, each with an optional payload type.
    Variant(Vec<(String, Option<Box<ValType>>)>),
    Enum(Vec<String>),
    Option(Box<ValType>),
    /// The payload types of the `ok` and `err` sides.
    Result(Option<Box<ValType>>, Option<Box<ValType>>),
    Flags(Vec<String>),
}

/// A value handed to or returned by a module function.
#[derive(Debug)]
pub enum Val {
    Bool(bool),
    S8(i8),
    U8(u8),
    S16(i16),
    U16(u16),
    S32(i32),
    U32(u32),
    S64(i64),
    U64(u64),
    Char(char),
    Str(String),
    List(Vec<Val>),
    Record(Vec<(String, Val)>),
    Tuple(Vec<Val>),
    Variant(String, Option<Box<Val>>),
    Enum(String),
    Option(Option<Box<Val>>),
    /// The `ok` side of a result, with its payload if the type has one.
    ResultOk(Option<Box<Val>>),
    /// The `err` side of a result, with its payload if the type has one.
    ResultErr(Option<Box<Val>>),
    Flags(Vec<String>),
}

/// A schema-less tree: null, booleans, integers, strings, arrays and objects
/// whose entries keep their order.
#[derive(Debug)]
pub enum Json {
    Null,
    Bool(bool),
    Number(i128),
    Str(String),
    Array(Vec<Json>),
    Object(Vec<(String, Json)>),
}

} // verus!
