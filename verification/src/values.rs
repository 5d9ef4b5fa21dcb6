//! Reading typed argument values out of the table of named values.
use vstd::prelude::*;

use crate::arg_map::ArgMap;
use crate::numbers::{decimal_in_range, parse_decimal};
use crate::text::{chars_of, split_chars, split_on, strings_view, string_of, text_eq};

verus! {

/// A type that argument values can be read as: how a written value is read,
/// the value used when none is given or it cannot be read, and whether the
/// type is a switch (`bool`), which a flag given without a value turns on.
pub trait ArgValue: View + Sized {
    /// The value that the text `s` reads as, if it can be read.
    spec fn spec_parse(s: Seq<char>) -> Option<Self::V>;

    /// The value used when there is nothing to read.
    spec fn spec_default() -> Self::V;

    /// Whether the type is a switch.
    spec fn spec_is_flag() -> bool;

    /// Reads the text `s`.
    fn parse_arg(s: &str) -> (r: Option<Self>)
        ensures
            match r {
                Some(v) => Self::spec_parse(s@) == Some(v@),
                None => Self::spec_parse(s@) is None,
            },
    ;

    /// The value used when there is nothing to read.
    fn default_value() -> (r: Self)
        ensures
            r@ == Self::spec_default(),
    ;

    /// Whether the type is a switch.
    fn is_flag() -> (r: bool)
        ensures
            r == Self::spec_is_flag(),
    ;
}

impl ArgValue for bool {
    open spec fn spec_parse(s: Seq<char>) -> Option<bool> {
        if s == "true"@ {
            Some(true)
        } else if s == "false"@ {
            Some(false)
        } else {
            None
        }
    }

    open spec fn spec_default() -> bool {
        false
    }

    open spec fn spec_is_flag() -> bool {
        true
    }

    fn parse_arg(s: &str) -> (r: Option<bool>) {
        if text_eq(s, "true") {
            Some(true)
        } else if text_eq(s, "false") {
            Some(false)
        } else {
            None
        }
    }

    fn default_value() -> (r: bool) {
        false
    }

    fn is_flag() -> (r: bool) {
        true
    }
}

impl ArgValue for String {
    open spec fn spec_parse(s: Seq<char>) -> Option<Seq<char>> {
        Some(s)
    }

    open spec fn spec_default() -> Seq<char> {
        Seq::empty()
    }

    open spec fn spec_is_flag() -> bool {
        false
    }

    fn parse_arg(s: &str) -> (r: Option<String>) {
        let v = chars_of(s);
        Some(string_of(v.as_slice()))
    }

    fn default_value() -> (r: String) {
        String::new()
    }

    fn is_flag() -> (r: bool) {
        false
    }
}

impl ArgValue for i32 {
    open spec fn spec_parse(s: Seq<char>) -> Option<i32> {
        match decimal_in_range(s, true, i32::MIN as int, i32::MAX as int) {
            Some(v) => Some(v as i32),
            None => None,
        }
    }

    open spec fn spec_default() -> i32 {
        0
    }

    open spec fn spec_is_flag() -> bool {
        false
    }

    fn parse_arg(s: &str) -> (r: Option<i32>) {
        match parse_decimal(s, true, 2147483647, 2147483648) {
            Some((neg, mag)) => if neg {
                Some((0 - (mag as i64)) as i32)
            } else {
                Some(mag as i32)
            },
            None => None,
        }
    }

    fn default_value() -> (r: i32) {
        0
    }

    fn is_flag() -> (r: bool) {
        false
    }
}

impl ArgValue for i64 {
    open spec fn spec_parse(s: Seq<char>) -> Option<i64> {
        match decimal_in_range(s, true, i64::MIN as int, i64::MAX as int) {
            Some(v) => Some(v as i64),
            None => None,
        }
    }

    open spec fn spec_default() -> i64 {
        0
    }

    open spec fn spec_is_flag() -> bool {
        false
    }

    fn parse_arg(s: &str) -> (r: Option<i64>) {
        match parse_decimal(s, true, 9223372036854775807, 9223372036854775808) {
            Some((neg, mag)) => if neg {
                if mag == 9223372036854775808 {
                    Some(i64::MIN)
                } else {
                    Some(0 - (mag as i64))
                }
            } else {
                Some(mag as i64)
            },
            None => None,
        }
    }

    fn default_value() -> (r: i64) {
        0
    }

    fn is_flag() -> (r: bool) {
        false
    }
}

impl ArgValue for u32 {
    open spec fn spec_parse(s: Seq<char>) -> Option<u32> {
        match decimal_in_range(s, false, 0, u32::MAX as int) {
            Some(v) => Some(v as u32),
            None => None,
        }
    }

    open spec fn spec_default() -> u32 {
        0
    }

    open spec fn spec_is_flag() -> bool {
        false
    }

    fn parse_arg(s: &str) -> (r: Option<u32>) {
        match parse_decimal(s, false, 4294967295, 0) {
            Some((_neg, mag)) => Some(mag as u32),
            None => None,
        }
    }

    fn default_value() -> (r: u32) {
        0
    }

    fn is_flag() -> (r: bool) {
        false
    }
}

impl ArgValue for u64 {
    open spec fn spec_parse(s: Seq<char>) -> Option<u64> {
        match decimal_in_range(s, false, 0, u64::MAX as int) {
            Some(v) => Some(v as u64),
            None => None,
        }
    }

    open spec fn spec_default() -> u64 {
        0
    }

    open spec fn spec_is_flag() -> bool {
        false
    }

    fn parse_arg(s: &str) -> (r: Option<u64>) {
        match parse_decimal(s, false, 18446744073709551615, 0) {
            Some((_neg, mag)) => Some(mag as u64),
            None => None,
        }
    }

    fn default_value() -> (r: u64) {
        0
    }

    fn is_flag() -> (r: bool) {
        false
    }
}

impl ArgValue for usize {
    open spec fn spec_parse(s: Seq<char>) -> Option<usize> {
        match decimal_in_range(s, false, 0, usize::MAX as int) {
            Some(v) => Some(v as usize),
            None => None,
        }
    }

    open spec fn spec_default() -> usize {
        0
    }

    open spec fn spec_is_flag() -> bool {
        false
    }

    fn parse_arg(s: &str) -> (r: Option<usize>) {
        match parse_decimal(s, false, usize::MAX as u128, 0) {
            Some((_neg, mag)) => Some(mag as usize),
            None => None,
        }
    }

    fn default_value() -> (r: usize) {
        0
    }

    fn is_flag() -> (r: bool) {
        false
    }
}

impl ArgValue for i8 {
    open spec fn spec_parse(s: Seq<char>) -> Option<i8> {
        match decimal_in_range(s, true, i8::MIN as int, i8::MAX as int) {
            Some(v) => Some(v as i8),
            None => None,
        }
    }

    open spec fn spec_default() -> i8 {
        0
    }

    open spec fn spec_is_flag() -> bool {
        false
    }

    fn parse_arg(s: &str) -> (r: Option<i8>) {
        match parse_decimal(s, true, 127, 128) {
            Some((neg, mag)) => if neg {
                Some((0 - (mag as i32)) as i8)
            } else {
                Some(mag as i8)
            },
            None => None,
        }
    }

    fn default_value() -> (r: i8) {
        0
    }

    fn is_flag() -> (r: bool) {
        false
    }
}

impl ArgValue for i16 {
    open spec fn spec_parse(s: Seq<char>) -> Option<i16> {
        match decimal_in_range(s, true, i16::MIN as int, i16::MAX as int) {
            Some(v) => Some(v as i16),
            None => None,
        }
    }

    open spec fn spec_default() -> i16 {
        0
    }

    open spec fn spec_is_flag() -> bool {
        false
    }

    fn parse_arg(s: &str) -> (r: Option<i16>) {
        match parse_decimal(s, true, 32767, 32768) {
            Some((neg, mag)) => if neg {
                Some((0 - (mag as i32)) as i16)
            } else {
                Some(mag as i16)
            },
            None => None,
        }
    }

    fn default_value() -> (r: i16) {
        0
    }

    fn is_flag() -> (r: bool) {
        false
    }
}

impl ArgValue for u8 {
    open spec fn spec_parse(s: Seq<char>) -> Option<u8> {
        match decimal_in_range(s, false, 0, u8::MAX as int) {
            Some(v) => Some(v as u8),
            None => None,
        }
    }

    open spec fn spec_default() -> u8 {
        0
    }

    open spec fn spec_is_flag() -> bool {
        false
    }

    fn parse_arg(s: &str) -> (r: Option<u8>) {
        match parse_decimal(s, false, 255, 0) {
            Some((_neg, mag)) => Some(mag as u8),
            None => None,
        }
    }

    fn default_value() -> (r: u8) {
        0
    }

    fn is_flag() -> (r: bool) {
        false
    }
}

impl ArgValue for u16 {
    open spec fn spec_parse(s: Seq<char>) -> Option<u16> {
        match decimal_in_range(s, false, 0, u16::MAX as int) {
            Some(v) => Some(v as u16),
            None => None,
        }
    }

    open spec fn spec_default() -> u16 {
        0
    }

    open spec fn spec_is_flag() -> bool {
        false
    }

    fn parse_arg(s: &str) -> (r: Option<u16>) {
        match parse_decimal(s, false, 65535, 0) {
            Some((_neg, mag)) => Some(mag as u16),
            None => None,
        }
    }

    fn default_value() -> (r: u16) {
        0
    }

    fn is_flag() -> (r: bool) {
        false
    }
}

impl ArgValue for isize {
    open spec fn spec_parse(s: Seq<char>) -> Option<isize> {
        match decimal_in_range(s, true, isize::MIN as int, isize::MAX as int) {
            Some(v) => Some(v as isize),
            None => None,
        }
    }

    open spec fn spec_default() -> isize {
        0
    }

    open spec fn spec_is_flag() -> bool {
        false
    }

    fn parse_arg(s: &str) -> (r: Option<isize>) {
        let max = isize::MAX as u128;
        match parse_decimal(s, true, max, max + 1) {
            Some((neg, mag)) => if neg {
                if mag == max + 1 {
                    Some(isize::MIN)
                } else {
                    Some(0 - (mag as isize))
                }
            } else {
                Some(mag as isize)
            },
            None => None,
        }
    }

    fn default_value() -> (r: isize) {
        0
    }

    fn is_flag() -> (r: bool) {
        false
    }
}

impl ArgValue for i128 {
    open spec fn spec_parse(s: Seq<char>) -> Option<i128> {
        match decimal_in_range(s, true, i128::MIN as int, i128::MAX as int) {
            Some(v) => Some(v as i128),
            None => None,
        }
    }

    open spec fn spec_default() -> i128 {
        0
    }

    open spec fn spec_is_flag() -> bool {
        false
    }

    fn parse_arg(s: &str) -> (r: Option<i128>) {
        let max = i128::MAX as u128;
        match parse_decimal(s, true, max, max + 1) {
            Some((neg, mag)) => if neg {
                if mag == max + 1 {
                    Some(i128::MIN)
                } else {
                    Some(0 - (mag as i128))
                }
            } else {
                Some(mag as i128)
            },
            None => None,
        }
    }

    fn default_value() -> (r: i128) {
        0
    }

    fn is_flag() -> (r: bool) {
        false
    }
}

impl ArgValue for u128 {
    open spec fn spec_parse(s: Seq<char>) -> Option<u128> {
        match decimal_in_range(s, false, 0, u128::MAX as int) {
            Some(v) => Some(v as u128),
            None => None,
        }
    }

    open spec fn spec_default() -> u128 {
        0
    }

    open spec fn spec_is_flag() -> bool {
        false
    }

    fn parse_arg(s: &str) -> (r: Option<u128>) {
        match parse_decimal(s, false, u128::MAX, 0) {
            Some((_neg, mag)) => Some(mag),
            None => None,
        }
    }

    fn default_value() -> (r: u128) {
        0
    }

    fn is_flag() -> (r: bool) {
        false
    }
}

impl ArgValue for char {
    /// A text of exactly one character reads as that character.
    open spec fn spec_parse(s: Seq<char>) -> Option<char> {
        if s.len() == 1 {
            Some(s[0])
        } else {
            None
        }
    }

    open spec fn spec_default() -> char {
        '\0'
    }

    open spec fn spec_is_flag() -> bool {
        false
    }

    fn parse_arg(s: &str) -> (r: Option<char>) {
        let v = chars_of(s);
        if v.len() == 1 {
            Some(v[0])
        } else {
            None
        }
    }

    fn default_value() -> (r: char) {
        '\0'
    }

    fn is_flag() -> (r: bool) {
        false
    }
}

/// The views of a list of names.
pub open spec fn names_view(names: Seq<&str>) -> Seq<Seq<char>> {
    names.map_values(|s: &str| s@)
}

/// Taking each of `names` out of `m` in order: the table that is left,
/// whether any name was found, and the value taken out last (a later name
/// overrides an earlier one, even with no value; a name listed again after it
/// was taken out is no longer found).
pub open spec fn take_named(
    m: Map<Seq<char>, Option<Seq<char>>>,
    found: bool,
    value: Option<Seq<char>>,
    names: Seq<Seq<char>>,
) -> (Map<Seq<char>, Option<Seq<char>>>, bool, Option<Seq<char>>)
    decreases names.len(),
{
    if names.len() == 0 {
        (m, found, value)
    } else if m.contains_key(names[0]) {
        take_named(m.remove(names[0]), true, m[names[0]], names.drop_first())
    } else {
        take_named(m, found, value, names.drop_first())
    }
}

/// The value that a switch takes when it is turned on.
pub open spec fn switch_on_value<T: ArgValue>() -> T::V {
    match T::spec_parse("true"@) {
        Some(v) => v,
        None => T::spec_default(),
    }
}

/// The value an argument of type `T` takes, given whether its name was present
/// and the value written for it.
pub open spec fn arg_value_of<T: ArgValue>(found: bool, value: Option<Seq<char>>) -> T::V {
    match value {
        Some(s) => match T::spec_parse(s) {
            Some(v) => v,
            None => if T::spec_is_flag() {
                switch_on_value::<T>()
            } else {
                T::spec_default()
            },
        },
        None => if T::spec_is_flag() && found {
            switch_on_value::<T>()
        } else {
            T::spec_default()
        },
    }
}

/// Takes the argument known by any of `names` out of `args` and reads it as a
/// `T`.  Every one of the names is removed, in order; the value taken out
/// last counts (a name listed twice is taken out only the first time).  A
/// value that cannot be read gives the default, except
/// that a switch given without a readable value is turned on.
pub fn get_arg_from_name<T: ArgValue>(args: &mut ArgMap, names: &[&str]) -> (r: T)
    ensures
        ({
            let t = take_named(old(args)@, false, None, names_view(names@));
            &&& final(args)@ == t.0
            &&& r@ == arg_value_of::<T>(t.1, t.2)
        }),
{
    let mut contains = false;
    let mut val: Option<String> = None;
    let ghost all = names_view(names@);
    let n = names.len();
    assert(all.skip(0) =~= all);
    for i in 0..n
        invariant
            n == names@.len(),
            all == names_view(names@),
            take_named(args@, contains, crate::text::opt_view(val), all.skip(i as int)) == take_named(
                old(args)@,
                false,
                None,
                all,
            ),
    {
        let ghost m0 = args@;
        let ghost c0 = contains;
        let ghost v0 = crate::text::opt_view(val);
        let ghost rest = all.skip(i as int);
        assert(rest.drop_first() == all.skip(i + 1));
        assert(rest[0] == names@[i as int]@);
        assert(rest.len() > 0);
        if let Some(val1) = args.remove(names[i]) {
            val = val1;
            contains = true;
            assert(take_named(m0, c0, v0, rest) == take_named(m0.remove(rest[0]), true, m0[rest[0]], rest.drop_first()));
        } else {
            assert(take_named(m0, c0, v0, rest) == take_named(m0, c0, v0, rest.drop_first()));
            assert(args@ == m0);
        }
    }
    assert(all.skip(n as int).len() == 0);
    let is_bool = T::is_flag();
    match val {
        Some(v) => match T::parse_arg(v.as_str()) {
            Some(arg) => arg,
            None => if is_bool {
                switch_on::<T>()
            } else {
                T::default_value()
            },
        },
        None => if is_bool && contains {
            switch_on::<T>()
        } else {
            T::default_value()
        },
    }
}

/// The value a switch takes when it is turned on.
fn switch_on<T: ArgValue>() -> (r: T)
    ensures
        r@ == switch_on_value::<T>(),
{
    match T::parse_arg("true") {
        Some(v) => v,
        None => T::default_value(),
    }
}

/// Taking `names` out of `m` in order until one is found with a value: the
/// table that is left, and the pieces of that value between `'\0'`s (none for
/// an empty value or when no name has a value).
pub open spec fn take_list(m: Map<Seq<char>, Option<Seq<char>>>, names: Seq<Seq<char>>) -> (
    Map<Seq<char>, Option<Seq<char>>>,
    Seq<Seq<char>>,
)
    decreases names.len(),
{
    if names.len() == 0 {
        (m, Seq::empty())
    } else if m.contains_key(names[0]) {
        match m[names[0]] {
            Some(v) => (m.remove(names[0]), if v.len() == 0 {
                Seq::empty()
            } else {
                split_on(v, '\0')
            }),
            None => take_list(m.remove(names[0]), names.drop_first()),
        }
    } else {
        take_list(m, names.drop_first())
    }
}

/// Takes the list argument known by the first of `names` that has a value
/// out of `args` (removing the names tried before it) and splits it at
/// `'\0'`.
pub fn get_vec_arg_from_name(args: &mut ArgMap, names: &[&str]) -> (r: Vec<String>)
    ensures
        ({
            let t = take_list(old(args)@, names_view(names@));
            &&& final(args)@ == t.0
            &&& strings_view(r@) == t.1
        }),
{
    let ghost all = names_view(names@);
    let n = names.len();
    assert(all.skip(0) =~= all);
    for i in 0..n
        invariant
            n == names@.len(),
            all == names_view(names@),
            take_list(args@, all.skip(i as int)) == take_list(old(args)@, all),
    {
        let ghost m0 = args@;
        let ghost rest = all.skip(i as int);
        assert(rest.drop_first() == all.skip(i + 1));
        assert(rest[0] == names@[i as int]@);
        assert(rest.len() > 0);
        let removed = args.remove(names[i]);
        proof {
            if removed is None {
                assert(args@ == m0);
                assert(take_list(m0, rest) == take_list(m0, rest.drop_first()));
            } else if removed == Some(None::<String>) {
                assert(take_list(m0, rest) == take_list(m0.remove(rest[0]), rest.drop_first()));
            }
        }
        if let Some(Some(val)) = removed {
            if val.as_str().is_empty() {
                let r: Vec<String> = Vec::new();
                assert(strings_view(r@) =~= Seq::<Seq<char>>::empty());
                return r;
            }
            let v = chars_of(val.as_str());
            return split_chars(v.as_slice(), '\0');
        }
    }
    assert(all.skip(n as int).len() == 0);
    let r: Vec<String> = Vec::new();
    assert(strings_view(r@) =~= Seq::<Seq<char>>::empty());
    r
}

} // verus!
