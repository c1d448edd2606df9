use vstd::prelude::*;

verus! {

/// A type-tagged value that middleware layers and handlers exchange through
/// the per-request context. Reading a slot back under the wrong tag is an
/// explicit error, never a silent default.
pub enum StoredValue {
    IntVal(i64),
    BoolVal(bool),
    TextVal(String),
}

/// Mathematical image of a `StoredValue`: the text is a character sequence.
pub enum ValueModel {
    IntM(i64),
    BoolM(bool),
    TextM(Seq<char>),
}

impl View for StoredValue {
    type V = ValueModel;

    open spec fn view(&self) -> ValueModel {
        match self {
            StoredValue::IntVal(i) => ValueModel::IntM(*i),
            StoredValue::BoolVal(b) => ValueModel::BoolM(*b),
            StoredValue::TextVal(s) => ValueModel::TextM(s@),
        }
    }
}

impl StoredValue {
    /// A copy that denotes the same value.
    pub fn duplicate(&self) -> (r: StoredValue)
        ensures
            r@ == self@,
    {
        match self {
            StoredValue::IntVal(i) => StoredValue::IntVal(*i),
            StoredValue::BoolVal(b) => StoredValue::BoolVal(*b),
            StoredValue::TextVal(s) => StoredValue::TextVal(s.clone()),
        }
    }
}

/// Why a typed read of the scoped storage failed.
#[derive(PartialEq, Eq, Structural, Clone, Copy, Debug)]
pub enum StorageError {
    /// No value is stored under the requested key (or slot).
    Absent,
    /// A value was stored, but under a different type tag than requested.
    TypeMismatch,
}

} // verus!
