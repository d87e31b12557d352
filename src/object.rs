//! Object handles and their identity.

use vstd::prelude::*;

verus! {

/// The identity of an allocation in a heap.
#[derive(Clone, Copy, Debug, PartialEq, Eq, Structural)]
pub enum ObjectPtr {
    Allocation(usize),
}

/// A generic script-backed object.
#[derive(Clone, Copy, Debug, PartialEq, Eq, Structural)]
pub struct ScriptObject {
    pub ptr: ObjectPtr,
}

/// An object backed by a node of the stage.
#[derive(Clone, Copy, Debug, PartialEq, Eq, Structural)]
pub struct StageObject {
    pub ptr: ObjectPtr,
}

/// A handle to an object of one of the fixed kinds.
///
/// A handle is meaningful only for the heap that allocated it.
#[derive(Clone, Copy, Debug, PartialEq, Eq, Structural)]
pub enum Object {
    ScriptObject(ScriptObject),
    StageObject(StageObject),
}

impl ObjectPtr {
    pub open spec fn index(self) -> nat {
        match self {
            ObjectPtr::Allocation(i) => i as nat,
        }
    }
}

impl Object {
    pub open spec fn ptr(self) -> ObjectPtr {
        match self {
            Object::ScriptObject(s) => s.ptr,
            Object::StageObject(s) => s.ptr,
        }
    }

    pub open spec fn index(self) -> nat {
        self.ptr().index()
    }

    /// The identity of the allocation behind this handle.
    pub fn as_ptr(&self) -> (r: ObjectPtr)
        ensures
            r == self.ptr(),
    {
        match self {
            Object::ScriptObject(s) => s.ptr,
            Object::StageObject(s) => s.ptr,
        }
    }

    /// Whether the two handles address the same allocation.
    pub fn ptr_eq(a: Object, b: Object) -> (r: bool)
        ensures
            r == (a.ptr() == b.ptr()),
    {
        a.as_ptr() == b.as_ptr()
    }

    pub fn as_script_object(&self) -> (r: Option<ScriptObject>)
        ensures
            r == (match *self {
                Object::ScriptObject(s) => Some(s),
                _ => None,
            }),
    {
        match self {
            Object::ScriptObject(s) => Some(*s),
            _ => None,
        }
    }
}

} // verus!
