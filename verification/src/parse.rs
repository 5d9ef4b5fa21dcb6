//! Turning the words that follow the command into named argument values.
//!
//! A flag method reads `--name value` / `--name` pairs; a bare method takes
//! positional words, stored under `--<argument name>`, where a trailing
//! `Vec<String>` argument collects all remaining words joined by `'\0'`.
use vstd::prelude::*;

use crate::arg_map::ArgMap;
use crate::error::AppEntryError;
use crate::info::{ArgInfo, FunctionInfo};
use crate::text::{
    chars_eq, chars_of, chars_without, join_strings, join_with, push_char, push_text,
    starts_with_char, strings_view, text_starts_with, without_char,
};

verus! {

/// The name under which the value of the argument called `name` is stored:
/// `--` followed by the name.
pub open spec fn long_name(name: Seq<char>) -> Seq<char> {
    seq!['-', '-'] + name
}

/// Whether a written type is `Vec<String>` (optionally with its `std::vec`
/// path), ignoring spaces.
pub open spec fn is_vec_string_type(ty: Seq<char>) -> bool {
    let t = without_char(ty, ' ');
    t == "Vec<String>"@ || t == "std::vec::Vec<String>"@ || t == "::std::vec::Vec<String>"@
}

/// The position of the first `Vec<String>` argument, if any.
pub open spec fn first_vec_string_index(args: Seq<ArgInfo>) -> Option<int>
    decreases args.len(),
{
    if args.len() == 0 {
        None
    } else {
        match first_vec_string_index(args.drop_last()) {
            Some(i) => Some(i),
            None => if is_vec_string_type(args.last().ty_name@) {
                Some(args.len() - 1)
            } else {
                None
            },
        }
    }
}

/// The values `vals` stored in order under the long names of `args`
/// (a later argument of the same name replaces an earlier one).
pub open spec fn positional_map(args: Seq<ArgInfo>, vals: Seq<Seq<char>>) -> Map<Seq<char>, Option<Seq<char>>>
    decreases args.len(),
{
    if args.len() == 0 {
        Map::empty()
    } else {
        positional_map(args.drop_last(), vals.drop_last()).insert(
            long_name(args.last().name@),
            Some(vals[args.len() - 1]),
        )
    }
}

/// Some word starts with `-`.
pub open spec fn has_flag_word(raw: Seq<Seq<char>>) -> bool {
    exists|i: int| 0 <= i < raw.len() && starts_with_char(#[trigger] raw[i], '-')
}

/// What parsing the words `raw` for the bare method `m` gives.
pub open spec fn bare_args_result<S, A>(m: FunctionInfo<S, A>, raw: Seq<Seq<char>>) -> Result<
    Map<Seq<char>, Option<Seq<char>>>,
    AppEntryError,
> {
    let args = m.args@;
    if has_flag_word(raw) {
        Err(AppEntryError::FlagInBareCall { method: m.name })
    } else {
        match first_vec_string_index(args) {
            Some(v) => if v + 1 != args.len() {
                Err(AppEntryError::VarargsNotLast)
            } else if raw.len() < v {
                Err(AppEntryError::TooFewArguments { method: m.name, expected: v as usize, got: raw.len() as usize })
            } else {
                Ok(
                    positional_map(args.take(v), raw.take(v)).insert(
                        long_name(args[v].name@),
                        Some(join_with(raw.skip(v), '\0')),
                    ),
                )
            },
            None => if raw.len() != args.len() {
                Err(AppEntryError::WrongArgumentCount { method: m.name, expected: args.len() as usize, got: raw.len() as usize })
            } else {
                Ok(positional_map(args, raw))
            },
        }
    }
}

/// The flag words `raw` folded into `acc`: a word is a name, and the next word
/// is its value unless that word starts with `-` (or there is none); a later
/// occurrence of a name replaces an earlier one.
pub open spec fn fold_flags(acc: Map<Seq<char>, Option<Seq<char>>>, raw: Seq<Seq<char>>) -> Map<
    Seq<char>,
    Option<Seq<char>>,
>
    decreases raw.len(),
{
    if raw.len() == 0 {
        acc
    } else if raw.len() >= 2 && !starts_with_char(raw[1], '-') {
        fold_flags(acc.insert(raw[0], Some(raw[1])), raw.skip(2))
    } else {
        fold_flags(acc.insert(raw[0], None), raw.skip(1))
    }
}

/// What parsing the words `raw` for a flag method gives.
pub open spec fn flag_args_map(raw: Seq<Seq<char>>) -> Map<Seq<char>, Option<Seq<char>>> {
    fold_flags(Map::empty(), raw)
}

/// What parsing the words `raw` for the method `m` gives.
pub open spec fn method_args_result<S, A>(m: FunctionInfo<S, A>, raw: Seq<Seq<char>>) -> Result<
    Map<Seq<char>, Option<Seq<char>>>,
    AppEntryError,
> {
    if m.is_bare {
        bare_args_result(m, raw)
    } else {
        Ok(flag_args_map(raw))
    }
}

/// The view of a parse result.
pub open spec fn parsed_view(r: Result<ArgMap, AppEntryError>) -> Result<
    Map<Seq<char>, Option<Seq<char>>>,
    AppEntryError,
> {
    match r {
        Ok(m) => Ok(m@),
        Err(e) => Err(e),
    }
}

/// `--` followed by `name`.
pub fn long_key(name: &str) -> (r: String)
    ensures
        r@ == long_name(name@),
{
    let mut s = String::new();
    push_char(&mut s, '-');
    push_char(&mut s, '-');
    push_text(&mut s, name);
    assert(s@ =~= long_name(name@));
    s
}

/// Whether the argument is declared as `Vec<String>`.
pub fn is_vec_string_arg(arg: &ArgInfo) -> (r: bool)
    ensures
        r == is_vec_string_type(arg.ty_name@),
{
    let ty = chars_of(arg.ty_name);
    let t = chars_without(ty.as_slice(), ' ');
    let a = chars_of("Vec<String>");
    let b = chars_of("std::vec::Vec<String>");
    let c = chars_of("::std::vec::Vec<String>");
    chars_eq(t.as_slice(), a.as_slice()) || chars_eq(t.as_slice(), b.as_slice()) || chars_eq(
        t.as_slice(),
        c.as_slice(),
    )
}

/// The position of the first `Vec<String>` argument, if any.
fn vec_string_position(args: &[ArgInfo]) -> (r: Option<usize>)
    ensures
        r matches Some(i) ==> i < args@.len() && first_vec_string_index(args@) == Some(i as int),
        r is None ==> first_vec_string_index(args@) is None,
{
    let n = args.len();
    for i in 0..n
        invariant
            n == args@.len(),
            first_vec_string_index(args@.subrange(0, i as int)) is None,
    {
        assert(args@.subrange(0, i + 1).drop_last() == args@.subrange(0, i as int));
        if is_vec_string_arg(&args[i]) {
            proof {
                lemma_first_vec_prefix(args@, i as int + 1);
            }
            return Some(i);
        }
    }
    assert(args@.subrange(0, n as int) == args@);
    None
}

proof fn lemma_first_vec_prefix(args: Seq<ArgInfo>, k: int)
    requires
        0 <= k <= args.len(),
        first_vec_string_index(args.subrange(0, k)) is Some,
    ensures
        first_vec_string_index(args) == first_vec_string_index(args.subrange(0, k)),
    decreases args.len() - k,
{
    if k < args.len() {
        assert(args.subrange(0, k + 1).drop_last() == args.subrange(0, k));
        lemma_first_vec_prefix(args, k + 1);
    } else {
        assert(args.subrange(0, k) == args);
    }
}

/// The values `raw[0..count]` stored under the long names of
/// `args[0..count]`.
fn positional_values(args: &[ArgInfo], raw: &Vec<String>, count: usize) -> (r: ArgMap)
    requires
        count <= args@.len(),
        count <= raw@.len(),
    ensures
        r@ == positional_map(args@.take(count as int), strings_view(raw@).take(count as int)),
{
    let mut map = ArgMap::new();
    let ghost vals = strings_view(raw@);
    for i in 0..count
        invariant
            count <= args@.len(),
            count <= raw@.len(),
            vals == strings_view(raw@),
            map@ == positional_map(args@.take(i as int), vals.take(i as int)),
    {
        let key = long_key(args[i].name);
        let value = raw[i].clone();
        map.insert(key, Some(value));
        assert(args@.take(i + 1).drop_last() == args@.take(i as int));
        assert(vals.take(i + 1).drop_last() == vals.take(i as int));
    }
    map
}

/// Maps the positional words of a bare method call to the long names of its
/// arguments; a trailing `Vec<String>` argument takes all remaining words
/// joined by `'\0'`.
pub fn parse_bare_method_args<S, A>(method: &FunctionInfo<S, A>, raw_args: Vec<String>) -> (r: Result<
    ArgMap,
    AppEntryError,
>)
    ensures
        parsed_view(r) == bare_args_result(*method, strings_view(raw_args@)),
{
    let ghost raw = strings_view(raw_args@);
    let n = raw_args.len();
    for i in 0..n
        invariant
            n == raw_args@.len(),
            raw == strings_view(raw_args@),
            forall|j: int| 0 <= j < i ==> !starts_with_char(#[trigger] raw[j], '-'),
    {
        if text_starts_with(raw_args[i].as_str(), '-') {
            assert(starts_with_char(raw[i as int], '-'));
            return Err(AppEntryError::FlagInBareCall { method: method.name });
        }
    }
    assert(!has_flag_word(raw));
    let args = method.args;
    match vec_string_position(args) {
        Some(v) => {
            if v != args.len() - 1 {
                return Err(AppEntryError::VarargsNotLast);
            }
            if n < v {
                return Err(AppEntryError::TooFewArguments { method: method.name, expected: v, got: n });
            }
            let mut map = positional_values(args, &raw_args, v);
            let mut rest: Vec<String> = Vec::new();
            for i in v..n
                invariant
                    v <= n,
                    n == raw_args@.len(),
                    raw == strings_view(raw_args@),
                    strings_view(rest@) == raw.subrange(v as int, i as int),
            {
                let ghost prev = rest@;
                rest.push(raw_args[i].clone());
                assert(raw[i as int] == raw_args@[i as int]@);
                assert(strings_view(rest@) == strings_view(prev).push(raw[i as int]));
                assert(strings_view(rest@) =~= raw.subrange(v as int, i + 1));
            }
            assert(raw.subrange(v as int, n as int) == raw.skip(v as int));
            let joined = join_strings(rest.as_slice(), '\0');
            let key = long_key(args[v].name);
            map.insert(key, Some(joined));
            Ok(map)
        },
        None => {
            if n != args.len() {
                return Err(AppEntryError::WrongArgumentCount { method: method.name, expected: args.len(), got: n });
            }
            let map = positional_values(args, &raw_args, n);
            assert(args@.take(n as int) == args@);
            assert(raw.take(n as int) == raw);
            Ok(map)
        },
    }
}

/// Reads `--name value` and `--name` pairs: each word is a name, and the
/// next word is its value unless it starts with `-`.
pub fn parse_flag_method_args(raw_args: Vec<String>) -> (r: ArgMap)
    ensures
        r@ == flag_args_map(strings_view(raw_args@)),
{
    let mut raw_args = raw_args;
    let mut map = ArgMap::new();
    let ghost all = strings_view(raw_args@);
    while raw_args.len() > 0
        invariant
            fold_flags(map@, strings_view(raw_args@)) == fold_flags(Map::empty(), all),
        decreases raw_args@.len(),
    {
        let ghost before = strings_view(raw_args@);
        let arg = raw_args.remove(0);
        assert(strings_view(raw_args@) =~= before.skip(1));
        let arg_val = if raw_args.len() > 0 && !text_starts_with(raw_args[0].as_str(), '-') {
            let v = raw_args.remove(0);
            assert(strings_view(raw_args@) =~= before.skip(2));
            Some(v)
        } else {
            None
        };
        map.insert(arg, arg_val);
    }
    assert(strings_view(raw_args@) =~= Seq::<Seq<char>>::empty());
    map
}

/// Parses the words after the command for `method`, by its form.
pub fn parse_method_args<S, A>(method: &FunctionInfo<S, A>, raw_args: Vec<String>) -> (r: Result<
    ArgMap,
    AppEntryError,
>)
    ensures
        parsed_view(r) == method_args_result(*method, strings_view(raw_args@)),
{
    if method.is_bare {
        parse_bare_method_args(method, raw_args)
    } else {
        Ok(parse_flag_method_args(raw_args))
    }
}

} // verus!
