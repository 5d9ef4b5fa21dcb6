//! Deciding what a command line asks for: the help text, a method to run with
//! its argument values, or a refusal with the reason and the help text.
use vstd::prelude::*;

use crate::arg_map::ArgMap;
use crate::error::AppEntryError;
use crate::info::FunctionInfo;
use crate::parse::{method_args_result, parse_method_args};
use crate::select::{get_method_post, method_seq, select_method, Selection, VecFunctionInfoExt};
use crate::text::{strings_view, text_eq};

verus! {

/// What to do for a command line.
pub enum DispatchPlan<S: 'static, A: 'static> {
    /// Print the help text and stop successfully.
    ShowHelp,
    /// Run `method` with the argument values `args`.
    Run { method: &'static FunctionInfo<S, A>, args: ArgMap },
    /// Report `error`, print the help text, and fail.
    Refuse { error: AppEntryError },
}

/// The first word asks for help.
pub open spec fn is_help_request(words: Seq<Seq<char>>) -> bool {
    words.len() > 0 && words[0] == "--help"@
}

/// The words left for the method's arguments once the method is chosen.
pub open spec fn remaining_words(sel: Selection, args: Seq<String>) -> Seq<String> {
    match sel {
        Selection::Named(_) => args.remove(0),
        _ => args,
    }
}

/// The position of the chosen method, if one is chosen.
pub open spec fn chosen_index(sel: Selection) -> Option<int> {
    match sel {
        Selection::Named(i) => Some(i),
        Selection::Default(i) => Some(i),
        Selection::Sole => Some(0),
        _ => None,
    }
}

/// The error reported when no method is chosen.
pub open spec fn selection_error(sel: Selection, args: Seq<String>) -> AppEntryError {
    match sel {
        Selection::WrongForm => AppEntryError::InvalidCommandForm { name: args[0] },
        _ => AppEntryError::MissingCommand,
    }
}

/// The outcome of dispatching `args` among `ms`, up to the help text: `None`
/// for a help request, `Some(Ok((i, values)))` to run method `i` with
/// `values`, `Some(Err(e))` to refuse with `e`.
pub open spec fn dispatch_outcome<S, A>(ms: Seq<FunctionInfo<S, A>>, enable_short: bool, args: Seq<String>) -> Option<
    Result<(int, Map<Seq<char>, Option<Seq<char>>>), AppEntryError>,
> {
    let words = strings_view(args);
    if is_help_request(words) {
        None
    } else {
        let sel = select_method(ms, enable_short, words);
        match chosen_index(sel) {
            Some(i) => match method_args_result(ms[i], strings_view(remaining_words(sel, args))) {
                Ok(values) => Some(Ok((i, values))),
                Err(e) => Some(Err(e)),
            },
            None => Some(Err(selection_error(sel, args))),
        }
    }
}

/// Decides what the command line `args` (the words after the program path)
/// asks for among `methods`.
pub fn dispatch_parts_from_methods<S, A>(
    enable_short: bool,
    args: Vec<String>,
    methods: &Vec<&'static FunctionInfo<S, A>>,
) -> (r: DispatchPlan<S, A>)
    requires
        !is_help_request(strings_view(args@)) ==> !(select_method(
            method_seq(methods@),
            enable_short,
            strings_view(args@),
        ) is Ambiguous),
    ensures
        ({
            let ms = method_seq(methods@);
            match dispatch_outcome(ms, enable_short, args@) {
                None => r is ShowHelp,
                Some(Ok((i, values))) => r matches DispatchPlan::Run { method, args: a } && *method == ms[i]
                    && a@ == values,
                Some(Err(e)) => r == DispatchPlan::<S, A>::Refuse { error: e },
            }
        }),
{
    let ghost ms = method_seq(methods@);
    let ghost words = strings_view(args@);
    if args.len() > 0 && text_eq(args[0].as_str(), "--help") {
        assert(is_help_request(words));
        return DispatchPlan::ShowHelp;
    }
    assert(!is_help_request(words));
    let ghost sel = select_method(ms, enable_short, words);
    let ghost old_args = args@;
    let mut args = args;
    let method = match methods.get_method(enable_short, &mut args) {
        Ok(method) => method,
        Err(error) => {
            assert(get_method_post(ms, enable_short, old_args, args@, Err(error)));
            return DispatchPlan::Refuse { error };
        },
    };
    assert(args@ == remaining_words(sel, old_args));
    let ghost i = chosen_index(sel)->0;
    assert(*method == ms[i]);
    match parse_method_args(method, args) {
        Ok(arg_vals) => DispatchPlan::Run { method, args: arg_vals },
        Err(error) => DispatchPlan::Refuse { error },
    }
}

} // verus!
