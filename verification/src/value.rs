use vstd::prelude::*;

pub mod object;

pub use object::Heap;
pub use object::Object;

verus! {

/// A fixed-size value cell. Exactly one interpretation of a cell is valid at
/// a time, selected by the bytecode instruction that produced or consumes it;
/// the tag makes that interpretation checkable instead of relying on raw
/// overlapping storage.
#[derive(Debug, Clone, Copy)]
pub enum Value {
    /// A 32-bit signed integer.
    Int(i32),
    /// A raw machine-word-sized size, used as the length prefix of a packed
    /// byte run in the constant pool.
    Size(usize),
    /// Four raw bytes of a packed byte run in the constant pool.
    Bytes4(u8, u8, u8, u8),
    /// A handle to a reference-counted heap object.
    Obj(Object),
}

impl Value {
    /// Build a cell holding an integer.
    pub fn from_int(i: i32) -> (v: Value)
        ensures
            v == Value::Int(i),
    {
        Value::Int(i)
    }

    /// Build a cell holding a heap-object handle.
    pub fn obj(obj: Object) -> (v: Value)
        ensures
            v == Value::Obj(obj),
    {
        Value::Obj(obj)
    }

    /// Build a cell holding a raw size.
    pub fn size(size: usize) -> (v: Value)
        ensures
            v == Value::Size(size),
    {
        Value::Size(size)
    }

    /// The integer a cell holds, if the cell is an integer cell.
    pub fn as_int(self) -> (r: Option<i32>)
        ensures
            r == (match self {
                Value::Int(i) => Some(i),
                _ => None::<i32>,
            }),
    {
        match self {
            Value::Int(i) => Some(i),
            _ => None,
        }
    }
}

} // verus!
