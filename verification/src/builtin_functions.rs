//! The functions that the runtime provides to every Candy program.

use vstd::prelude::*;

verus! {

#[derive(Debug, PartialEq, Eq, Structural, Clone, Copy, Hash)]
pub enum BuiltinFunction {
    Add,
    Equals,
    GetArgumentCount,
    IfElse,
    Panic,
    Print,
    /// struct.get struct key -> value
    StructGet,
    /// struct.getKeys struct -> listOfKeys
    StructGetKeys,
    /// struct.hasKey struct key -> bool
    StructHasKey,
    TypeOf,
    /// use currentPath target -> targetAsStruct
    Use,
}

/// All builtin functions, in the order of their declaration.
pub open spec fn all_builtin_functions() -> Seq<BuiltinFunction> {
    seq![
        BuiltinFunction::Add,
        BuiltinFunction::Equals,
        BuiltinFunction::GetArgumentCount,
        BuiltinFunction::IfElse,
        BuiltinFunction::Panic,
        BuiltinFunction::Print,
        BuiltinFunction::StructGet,
        BuiltinFunction::StructGetKeys,
        BuiltinFunction::StructHasKey,
        BuiltinFunction::TypeOf,
        BuiltinFunction::Use,
    ]
}

/// All builtin functions, in the order of their declaration.
pub fn values() -> (res: Vec<BuiltinFunction>)
    ensures
        res@ == all_builtin_functions(),
{
    let res = vec![
        BuiltinFunction::Add,
        BuiltinFunction::Equals,
        BuiltinFunction::GetArgumentCount,
        BuiltinFunction::IfElse,
        BuiltinFunction::Panic,
        BuiltinFunction::Print,
        BuiltinFunction::StructGet,
        BuiltinFunction::StructGetKeys,
        BuiltinFunction::StructHasKey,
        BuiltinFunction::TypeOf,
        BuiltinFunction::Use,
    ];
    proof {
        assert(res@ =~= all_builtin_functions());
    }
    res
}

/// Every builtin function occurs exactly once among the values.
pub proof fn lemma_values_complete(f: BuiltinFunction)
    ensures
        all_builtin_functions().contains(f),
        forall|i: int, j: int|
            0 <= i < j < all_builtin_functions().len() ==> all_builtin_functions()[i]
                != all_builtin_functions()[j],
{
    match f {
        BuiltinFunction::Add => assert(all_builtin_functions()[0] == f),
        BuiltinFunction::Equals => assert(all_builtin_functions()[1] == f),
        BuiltinFunction::GetArgumentCount => assert(all_builtin_functions()[2] == f),
        BuiltinFunction::IfElse => assert(all_builtin_functions()[3] == f),
        BuiltinFunction::Panic => assert(all_builtin_functions()[4] == f),
        BuiltinFunction::Print => assert(all_builtin_functions()[5] == f),
        BuiltinFunction::StructGet => assert(all_builtin_functions()[6] == f),
        BuiltinFunction::StructGetKeys => assert(all_builtin_functions()[7] == f),
        BuiltinFunction::StructHasKey => assert(all_builtin_functions()[8] == f),
        BuiltinFunction::TypeOf => assert(all_builtin_functions()[9] == f),
        BuiltinFunction::Use => assert(all_builtin_functions()[10] == f),
    }
}

/// The name of the builtin function, as its variant is written.
pub open spec fn builtin_name(function: BuiltinFunction) -> Seq<char> {
    match function {
        BuiltinFunction::Add => "Add"@,
        BuiltinFunction::Equals => "Equals"@,
        BuiltinFunction::GetArgumentCount => "GetArgumentCount"@,
        BuiltinFunction::IfElse => "IfElse"@,
        BuiltinFunction::Panic => "Panic"@,
        BuiltinFunction::Print => "Print"@,
        BuiltinFunction::StructGet => "StructGet"@,
        BuiltinFunction::StructGetKeys => "StructGetKeys"@,
        BuiltinFunction::StructHasKey => "StructHasKey"@,
        BuiltinFunction::TypeOf => "TypeOf"@,
        BuiltinFunction::Use => "Use"@,
    }
}

impl BuiltinFunction {
    /// The name of the builtin function, as its variant is written (the text
    /// of its `Debug` form).
    pub fn name(&self) -> (res: String)
        ensures
            res@ == builtin_name(*self),
    {
        match self {
            BuiltinFunction::Add => String::from_str("Add"),
            BuiltinFunction::Equals => String::from_str("Equals"),
            BuiltinFunction::GetArgumentCount => String::from_str("GetArgumentCount"),
            BuiltinFunction::IfElse => String::from_str("IfElse"),
            BuiltinFunction::Panic => String::from_str("Panic"),
            BuiltinFunction::Print => String::from_str("Print"),
            BuiltinFunction::StructGet => String::from_str("StructGet"),
            BuiltinFunction::StructGetKeys => String::from_str("StructGetKeys"),
            BuiltinFunction::StructHasKey => String::from_str("StructHasKey"),
            BuiltinFunction::TypeOf => String::from_str("TypeOf"),
            BuiltinFunction::Use => String::from_str("Use"),
        }
    }
}

} // verus!
