//! Script values, property attributes and the outcome of property access.

use vstd::prelude::*;

use crate::object::Object;

verus! {

/// A callable living in the driving VM, referred to by its id.
#[derive(Clone, Copy, Debug, PartialEq, Eq, Structural)]
pub struct Executable {
    pub id: u64,
}

/// A node of the stage (display list), referred to by its id.
#[derive(Clone, Copy, Debug, PartialEq, Eq, Structural)]
pub struct DisplayObject {
    pub id: u64,
}

/// The attribute set of a property slot.
#[derive(Clone, Copy, Debug, PartialEq, Eq, Structural)]
pub struct Attributes {
    /// Excluded from enumeration.
    pub hidden: bool,
    /// Cannot be deleted.
    pub permanent: bool,
    /// Rejects writes.
    pub read_only: bool,
}

impl Attributes {
    pub fn empty() -> (r: Attributes)
        ensures
            !r.hidden && !r.permanent && !r.read_only,
    {
        Attributes { hidden: false, permanent: false, read_only: false }
    }

    pub fn hidden() -> (r: Attributes)
        ensures
            r.hidden && !r.permanent && !r.read_only,
    {
        Attributes { hidden: true, permanent: false, read_only: false }
    }

    pub fn permanent() -> (r: Attributes)
        ensures
            !r.hidden && r.permanent && !r.read_only,
    {
        Attributes { hidden: false, permanent: true, read_only: false }
    }

    pub fn read_only() -> (r: Attributes)
        ensures
            !r.hidden && !r.permanent && r.read_only,
    {
        Attributes { hidden: false, permanent: false, read_only: true }
    }

    /// The flags set in either operand.
    pub fn union(self, other: Attributes) -> (r: Attributes)
        ensures
            r.hidden == (self.hidden || other.hidden),
            r.permanent == (self.permanent || other.permanent),
            r.read_only == (self.read_only || other.read_only),
    {
        Attributes {
            hidden: self.hidden || other.hidden,
            permanent: self.permanent || other.permanent,
            read_only: self.read_only || other.read_only,
        }
    }

    /// The flags set in both operands.
    pub fn intersection(self, other: Attributes) -> (r: Attributes)
        ensures
            r.hidden == (self.hidden && other.hidden),
            r.permanent == (self.permanent && other.permanent),
            r.read_only == (self.read_only && other.read_only),
    {
        Attributes {
            hidden: self.hidden && other.hidden,
            permanent: self.permanent && other.permanent,
            read_only: self.read_only && other.read_only,
        }
    }
}

/// A script value.
#[derive(Clone, Debug, PartialEq)]
pub enum Value {
    Undefined,
    Null,
    Bool(bool),
    /// Numbers are held as integers here.
    Number(i64),
    String(String),
    Object(Object),
}

impl Value {
    /// A copy of this value.
    pub fn duplicate(&self) -> (r: Value)
        ensures
            r == *self,
    {
        match self {
            Value::Undefined => Value::Undefined,
            Value::Null => Value::Null,
            Value::Bool(b) => Value::Bool(*b),
            Value::Number(n) => Value::Number(*n),
            Value::String(s) => Value::String(s.clone()),
            Value::Object(o) => Value::Object(*o),
        }
    }

    pub fn is_undefined(&self) -> (r: bool)
        ensures
            r == (*self is Undefined),
    {
        match self {
            Value::Undefined => true,
            _ => false,
        }
    }
}

/// What one property slot holds.
#[derive(Clone, Debug, PartialEq)]
pub enum Property {
    /// A stored value.
    Stored { value: Value, attributes: Attributes },
    /// A virtual property: a getter and an optional setter.
    Virtual { get: Executable, set: Option<Executable>, attributes: Attributes },
}

impl Property {
    pub open spec fn attrs(self) -> Attributes {
        match self {
            Property::Stored { attributes, .. } => attributes,
            Property::Virtual { attributes, .. } => attributes,
        }
    }

    pub fn attributes(&self) -> (r: Attributes)
        ensures
            r == self.attrs(),
    {
        match self {
            Property::Stored { attributes, .. } => *attributes,
            Property::Virtual { attributes, .. } => *attributes,
        }
    }

    pub fn duplicate(&self) -> (r: Property)
        ensures
            r == *self,
    {
        match self {
            Property::Stored { value, attributes } => Property::Stored {
                value: value.duplicate(),
                attributes: *attributes,
            },
            Property::Virtual { get, set, attributes } => Property::Virtual {
                get: *get,
                set: *set,
                attributes: *attributes,
            },
        }
    }
}

/// The outcome of an access that yields a script-visible value.
///
/// Either the value itself, or a call that the driving VM has to make to
/// obtain it (a getter, a setter, or the object's own function).
#[derive(Clone, Debug, PartialEq)]
pub enum ReturnValue {
    Immediate(Value),
    Invoke { function: Executable, this: Object, args: Vec<Value> },
}

/// The errors that the object model raises itself.
#[derive(Clone, Copy, Debug, PartialEq, Eq, Structural)]
pub enum Error {
    /// The prototype chain was too deep (or cyclic) to resolve a property.
    PrototypeChainTooDeep,
    /// A write was made to a read-only property.
    PropertyReadOnly,
}

} // verus!
