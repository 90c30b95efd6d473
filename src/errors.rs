use vstd::prelude::*;

verus! {

/// Why a conversion between a term and a value failed.
#[derive(Debug, Clone, Copy, PartialEq, Eq, Structural)]
pub enum TypeEncodingError {
    InvalidBinary,
    InvalidAtom,
    InvalidInteger,
    InvalidFloat,
    InvalidArray,
    InvalidArrayItem,
    InvalidTuple,
    InvalidTupleItem,
    UnsupportedType,
    InvalidMap,
    InvalidMapItem,
    InvalidBoolean,
}

/// The message that describes each kind of failure.
pub open spec fn message_of(e: TypeEncodingError) -> Seq<char> {
    match e {
        TypeEncodingError::InvalidBinary => "binary is not valid UTF-8"@,
        TypeEncodingError::InvalidAtom => "atom cannot be read as a value"@,
        TypeEncodingError::InvalidInteger => "integer does not fit in 64 bits"@,
        TypeEncodingError::InvalidFloat => "float is not a finite number"@,
        TypeEncodingError::InvalidArray => "list is not a proper list"@,
        TypeEncodingError::InvalidArrayItem => "list holds an element that cannot be converted"@,
        TypeEncodingError::InvalidTuple => "tuple cannot be read"@,
        TypeEncodingError::InvalidTupleItem => "tuple holds an element that cannot be converted"@,
        TypeEncodingError::UnsupportedType => "term type has no value representation"@,
        TypeEncodingError::InvalidMap => "map has repeated keys"@,
        TypeEncodingError::InvalidMapItem => "map holds a key or value that cannot be converted"@,
        TypeEncodingError::InvalidBoolean => "boolean cannot be converted"@,
    }
}

/// Every message is non-empty, and the messages of two different kinds differ.
pub proof fn law_messages_distinct(a: TypeEncodingError, b: TypeEncodingError)
    ensures
        message_of(a).len() > 0,
        a != b ==> message_of(a) != message_of(b),
{
    reveal_strlit("binary is not valid UTF-8");
    reveal_strlit("atom cannot be read as a value");
    reveal_strlit("integer does not fit in 64 bits");
    reveal_strlit("float is not a finite number");
    reveal_strlit("list is not a proper list");
    reveal_strlit("list holds an element that cannot be converted");
    reveal_strlit("tuple cannot be read");
    reveal_strlit("tuple holds an element that cannot be converted");
    reveal_strlit("term type has no value representation");
    reveal_strlit("map has repeated keys");
    reveal_strlit("map holds a key or value that cannot be converted");
    reveal_strlit("boolean cannot be converted");
    assert("binary is not valid UTF-8"@.len() == 25);
    assert("atom cannot be read as a value"@.len() == 30);
    assert("integer does not fit in 64 bits"@.len() == 31);
    assert("float is not a finite number"@.len() == 28);
    assert("list is not a proper list"@.len() == 25);
    assert("list holds an element that cannot be converted"@.len() == 46);
    assert("tuple cannot be read"@.len() == 20);
    assert("tuple holds an element that cannot be converted"@.len() == 47);
    assert("term type has no value representation"@.len() == 37);
    assert("map has repeated keys"@.len() == 21);
    assert("map holds a key or value that cannot be converted"@.len() == 49);
    assert("boolean cannot be converted"@.len() == 27);
    assert("binary is not valid UTF-8"@[0] == 'b');
    assert("list is not a proper list"@[0] == 'l');
}

impl TypeEncodingError {
    /// A human-readable description of the failure.
    pub fn message(&self) -> (r: &'static str)
        ensures
            r@ == message_of(*self),
            r@.len() > 0,
    {
        proof {
            law_messages_distinct(*self, *self);
        }
        match self {
            TypeEncodingError::InvalidBinary => "binary is not valid UTF-8",
            TypeEncodingError::InvalidAtom => "atom cannot be read as a value",
            TypeEncodingError::InvalidInteger => "integer does not fit in 64 bits",
            TypeEncodingError::InvalidFloat => "float is not a finite number",
            TypeEncodingError::InvalidArray => "list is not a proper list",
            TypeEncodingError::InvalidArrayItem => "list holds an element that cannot be converted",
            TypeEncodingError::InvalidTuple => "tuple cannot be read",
            TypeEncodingError::InvalidTupleItem => "tuple holds an element that cannot be converted",
            TypeEncodingError::UnsupportedType => "term type has no value representation",
            TypeEncodingError::InvalidMap => "map has repeated keys",
            TypeEncodingError::InvalidMapItem => "map holds a key or value that cannot be converted",
            TypeEncodingError::InvalidBoolean => "boolean cannot be converted",
        }
    }
}

} // verus!
