//! Metadata describing the entry methods of a program and their arguments.
use vstd::prelude::*;

verus! {

/// How an entry method is run: to completion on the caller's thread, or as a
/// future that the caller awaits.  The payloads are the callables themselves;
/// their types are chosen by the program that registers the methods.
#[derive(Copy, Clone)]
pub enum AppEntryMethod<S, A> {
    Sync(S),
    Async(A),
}

/// A struct to hold argument metadata
#[derive(Copy, Clone)]
pub struct ArgInfo {
    pub name: &'static str,
    pub ty_name: &'static str,
    pub desc: Option<&'static str>,
}

impl ArgInfo {
    /// An argument without a description.
    pub fn new(name: &'static str, ty_name: &'static str) -> (r: Self)
        ensures
            r.name == name,
            r.ty_name == ty_name,
            r.desc is None,
    {
        ArgInfo { name, ty_name, desc: None }
    }

    /// An argument with an optional description.
    pub fn new_with_desc(name: &'static str, ty_name: &'static str, desc: Option<&'static str>) -> (r: Self)
        ensures
            r.name == name,
            r.ty_name == ty_name,
            r.desc == desc,
    {
        ArgInfo { name, ty_name, desc }
    }
}

/// An entry method: its name, whether it runs when no command is named
/// (`is_default`), whether it is called with positional arguments
/// (`is_bare`) rather than named flags, its description, its arguments and
/// the callable that runs it.
#[derive(Copy, Clone)]
pub struct FunctionInfo<S, A> {
    pub name: &'static str,
    pub is_default: bool,
    pub is_bare: bool,
    pub desc: Option<&'static str>,
    pub args: &'static [ArgInfo],
    pub method: AppEntryMethod<S, A>,
}

impl<S, A> FunctionInfo<S, A> {
    /// An entry method built from its parts.
    pub fn new(
        name: &'static str,
        is_default: bool,
        is_bare: bool,
        desc: Option<&'static str>,
        args: &'static [ArgInfo],
        method: AppEntryMethod<S, A>,
    ) -> (r: Self)
        ensures
            r.name == name,
            r.is_default == is_default,
            r.is_bare == is_bare,
            r.desc == desc,
            r.args == args,
            r.method == method,
    {
        FunctionInfo { name, is_default, is_bare, desc, args, method }
    }
}

} // verus!
