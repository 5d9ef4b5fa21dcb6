//! The help text: for each method its description, its usage line and, for a
//! flag method with arguments, one line per option, with the descriptions of
//! all options aligned to a common column.
use vstd::prelude::*;

use crate::info::{ArgInfo, FunctionInfo};
use crate::parse::{is_vec_string_arg, is_vec_string_type};
use crate::select::method_seq;
use crate::text::{
    byte_len, chars_of, join_strings, join_with, lowercase_of, pad_to, push_char, push_padded,
    push_text, strings_view, to_lowercase, utf8_len,
};

verus! {

/// The part of a program path after its last `/` or `\`.
pub open spec fn program_name_of(path: Seq<char>) -> Seq<char>
    decreases path.len(),
{
    if path.len() == 0 {
        path
    } else if path.last() == '/' || path.last() == '\\' {
        Seq::empty()
    } else {
        program_name_of(path.drop_last()).push(path.last())
    }
}

/// The option line of a flag method's argument (before its description).
pub open spec fn option_line(arg: ArgInfo, enable_short: bool) -> Seq<char> {
    let lcname = lowercase_of(arg.name@);
    let lcty = lowercase_of(arg.ty_name@);
    if enable_short {
        "    -"@ + seq![arg.name@[0]] + ", --"@ + lcname + " <"@ + lcty + ">"@
    } else {
        "    --"@ + lcname + " <"@ + lcty + ">"@
    }
}

/// The widest option line (in bytes) of `args`.
pub open spec fn args_width(args: Seq<ArgInfo>, enable_short: bool) -> usize
    decreases args.len(),
{
    if args.len() == 0 {
        0
    } else {
        let w = args_width(args.drop_last(), enable_short);
        let l = utf8_len(option_line(args.last(), enable_short));
        if w >= l {
            w
        } else {
            l
        }
    }
}

/// The widest option line (in bytes) over the flag methods of `ms`: the
/// column at which option descriptions start.
pub open spec fn help_width<S, A>(ms: Seq<FunctionInfo<S, A>>, enable_short: bool) -> usize
    decreases ms.len(),
{
    if ms.len() == 0 {
        0
    } else {
        let w = help_width(ms.drop_last(), enable_short);
        let l = if ms.last().is_bare {
            0
        } else {
            args_width(ms.last().args@, enable_short)
        };
        if w >= l {
            w
        } else {
            l
        }
    }
}

/// The line for one option, with its description (if any) at `width`.
pub open spec fn option_entry(arg: ArgInfo, enable_short: bool, width: usize) -> Seq<char> {
    match arg.desc {
        Some(d) => pad_to(option_line(arg, enable_short), width as nat) + " "@ + d@ + "\n"@,
        None => option_line(arg, enable_short) + "\n"@,
    }
}

/// The option lines for `args`.
pub open spec fn options_text(args: Seq<ArgInfo>, enable_short: bool, width: usize) -> Seq<char>
    decreases args.len(),
{
    if args.len() == 0 {
        Seq::empty()
    } else {
        options_text(args.drop_last(), enable_short, width) + option_entry(args.last(), enable_short, width)
    }
}

/// How a bare method's argument appears in its usage line.
pub open spec fn bare_arg_text(arg: ArgInfo) -> Seq<char> {
    if is_vec_string_type(arg.ty_name@) {
        "<"@ + lowercase_of(arg.name@) + "...>"@
    } else {
        "<"@ + lowercase_of(arg.name@) + ":"@ + lowercase_of(arg.ty_name@) + ">"@
    }
}

/// How a method is named in its usage line.
pub open spec fn usage_name<S, A>(m: FunctionInfo<S, A>, enable_short: bool) -> Seq<char> {
    let plain = if m.is_bare {
        m.name@
    } else if enable_short {
        "-"@ + seq![m.name@[0]] + "/--"@ + m.name@
    } else {
        "--"@ + m.name@
    };
    if m.is_default {
        "["@ + plain + "]"@
    } else {
        plain
    }
}

/// The help block of one method: description, usage, options, blank line.
/// The usage line names the method (`named`) unless it is the only one, which
/// runs without a command word.
pub open spec fn method_help<S, A>(m: FunctionInfo<S, A>, prog: Seq<char>, enable_short: bool, width: usize, named: bool) -> Seq<char> {
    let desc = match m.desc {
        Some(d) => "Desc:  "@ + d@ + "\n"@,
        None => Seq::empty(),
    };
    let usage = if named {
        "Usage: "@ + prog + " "@ + usage_name(m, enable_short)
    } else {
        "Usage: "@ + prog
    };
    let body = if m.is_bare {
        let a = join_with(m.args@.map_values(|arg: ArgInfo| bare_arg_text(arg)), ' ');
        if a.len() == 0 {
            usage + "\n"@
        } else {
            usage + " "@ + a + "\n"@
        }
    } else if m.args@.len() == 0 {
        usage + "\n"@
    } else {
        usage + " [Options]"@ + "\n"@ + "Options:"@ + "\n"@ + options_text(m.args@, enable_short, width)
    };
    desc + body + "\n"@
}

/// The help blocks of `ms`, with option descriptions at `width`.
pub open spec fn methods_help<S, A>(ms: Seq<FunctionInfo<S, A>>, prog: Seq<char>, enable_short: bool, width: usize, named: bool) -> Seq<char>
    decreases ms.len(),
{
    if ms.len() == 0 {
        Seq::empty()
    } else {
        methods_help(ms.drop_last(), prog, enable_short, width, named) + method_help(ms.last(), prog, enable_short, width, named)
    }
}

/// The help text for the methods `ms` of the program started as `arg0`; a
/// sole method's usage line does not name it.
pub open spec fn help_text<S, A>(ms: Seq<FunctionInfo<S, A>>, arg0: Seq<char>, enable_short: bool) -> Seq<char> {
    methods_help(ms, program_name_of(arg0), enable_short, help_width(ms, enable_short), ms.len() != 1)
}

/// Every argument in `args` has a non-empty name.
pub open spec fn arg_names_nonempty(args: Seq<ArgInfo>) -> bool {
    forall|j: int| 0 <= j < args.len() ==> (#[trigger] args[j]).name@.len() > 0
}

/// Help can be rendered for `ms`: every flag method, and every argument of a
/// flag method, has a non-empty name (their first characters are shown as
/// short flags).
pub open spec fn help_renderable<S, A>(ms: Seq<FunctionInfo<S, A>>) -> bool {
    forall|i: int|
        0 <= i < ms.len() && !(#[trigger] ms[i]).is_bare ==> ms[i].name@.len() > 0 && arg_names_nonempty(
            ms[i].args@,
        )
}

/// The part of `path` after its last `/` or `\`.
pub fn program_name(path: &str) -> (r: String)
    ensures
        r@ == program_name_of(path@),
{
    let v = chars_of(path);
    let n = v.len();
    let mut start: usize = 0;
    for i in 0..n
        invariant
            n == v@.len(),
            start <= i,
            program_name_of(v@.subrange(0, i as int)) == v@.subrange(start as int, i as int),
    {
        assert(v@.subrange(0, i + 1).drop_last() == v@.subrange(0, i as int));
        if v[i] == '/' || v[i] == '\\' {
            start = i + 1;
            assert(v@.subrange(start as int, i + 1) =~= Seq::<char>::empty());
        } else {
            assert(v@.subrange(start as int, i + 1) =~= v@.subrange(start as int, i as int).push(v@[i as int]));
        }
    }
    assert(v@.subrange(0, n as int) == path@);
    let mut out = String::new();
    for i in start..n
        invariant
            start <= n,
            n == v@.len(),
            out@ == v@.subrange(start as int, i as int),
    {
        push_char(&mut out, v[i]);
        assert(out@ =~= v@.subrange(start as int, i + 1));
    }
    out
}

/// The option line of a flag method's argument.
fn option_line_string(arg: &ArgInfo, enable_short: bool) -> (r: String)
    requires
        arg.name@.len() > 0,
    ensures
        r@ == option_line(*arg, enable_short),
{
    let lcname = to_lowercase(arg.name);
    let lcty = to_lowercase(arg.ty_name);
    let mut s = String::new();
    if enable_short {
        let name = chars_of(arg.name);
        push_text(&mut s, "    -");
        push_char(&mut s, name[0]);
        push_text(&mut s, ", --");
    } else {
        push_text(&mut s, "    --");
    }
    push_text(&mut s, lcname.as_str());
    push_text(&mut s, " <");
    push_text(&mut s, lcty.as_str());
    push_text(&mut s, ">");
    assert(s@ =~= option_line(*arg, enable_short));
    s
}

/// The widest option line of `args`.
fn args_width_of(args: &[ArgInfo], enable_short: bool) -> (r: usize)
    requires
        arg_names_nonempty(args@),
    ensures
        r == args_width(args@, enable_short),
{
    let mut w: usize = 0;
    let n = args.len();
    for i in 0..n
        invariant
            n == args@.len(),
            arg_names_nonempty(args@),
            w == args_width(args@.take(i as int), enable_short),
    {
        assert(args@.take(i + 1).drop_last() == args@.take(i as int));
        let line = option_line_string(&args[i], enable_short);
        let l = byte_len(&line);
        if l > w {
            w = l;
        }
    }
    assert(args@.take(n as int) == args@);
    w
}

/// The column at which option descriptions start.
fn help_width_of<S, A>(methods: &Vec<&'static FunctionInfo<S, A>>, enable_short: bool) -> (r: usize)
    requires
        help_renderable(method_seq(methods@)),
    ensures
        r == help_width(method_seq(methods@), enable_short),
{
    let ghost ms = method_seq(methods@);
    let mut w: usize = 0;
    let n = methods.len();
    for i in 0..n
        invariant
            n == methods@.len(),
            ms == method_seq(methods@),
            help_renderable(ms),
            w == help_width(ms.take(i as int), enable_short),
    {
        assert(ms.take(i + 1).drop_last() == ms.take(i as int));
        let m = methods[i];
        assert(ms[i as int] == *m);
        let l = if m.is_bare {
            0
        } else {
            args_width_of(m.args, enable_short)
        };
        if l > w {
            w = l;
        }
    }
    assert(ms.take(n as int) == ms);
    w
}

/// Appends the option lines of `args` to `out`.
fn push_options(out: &mut String, args: &[ArgInfo], enable_short: bool, width: usize)
    requires
        arg_names_nonempty(args@),
    ensures
        final(out)@ == old(out)@ + options_text(args@, enable_short, width),
{
    let n = args.len();
    for i in 0..n
        invariant
            n == args@.len(),
            arg_names_nonempty(args@),
            out@ == old(out)@ + options_text(args@.take(i as int), enable_short, width),
    {
        assert(args@.take(i + 1).drop_last() == args@.take(i as int));
        let arg = &args[i];
        let base = option_line_string(arg, enable_short);
        match arg.desc {
            Some(desc) => {
                push_padded(out, &base, width);
                push_text(out, " ");
                push_text(out, desc);
                push_text(out, "\n");
            },
            None => {
                push_text(out, base.as_str());
                push_text(out, "\n");
            },
        }
        assert(out@ =~= old(out)@ + options_text(args@.take(i + 1), enable_short, width));
    }
    assert(args@.take(n as int) == args@);
}

/// How a bare method's argument appears in its usage line.
fn bare_arg_string(arg: &ArgInfo) -> (r: String)
    ensures
        r@ == bare_arg_text(*arg),
{
    let mut s = String::new();
    let lcname = to_lowercase(arg.name);
    push_text(&mut s, "<");
    push_text(&mut s, lcname.as_str());
    if is_vec_string_arg(arg) {
        push_text(&mut s, "...>");
    } else {
        let lcty = to_lowercase(arg.ty_name);
        push_text(&mut s, ":");
        push_text(&mut s, lcty.as_str());
        push_text(&mut s, ">");
    }
    assert(s@ =~= bare_arg_text(*arg));
    s
}

/// The usage-line arguments of a bare method, separated by spaces.
fn bare_args_string(args: &[ArgInfo]) -> (r: String)
    ensures
        r@ == join_with(args@.map_values(|arg: ArgInfo| bare_arg_text(arg)), ' '),
{
    let mut pieces: Vec<String> = Vec::new();
    let n = args.len();
    for i in 0..n
        invariant
            n == args@.len(),
            strings_view(pieces@) == args@.take(i as int).map_values(|arg: ArgInfo| bare_arg_text(arg)),
    {
        let ghost before = strings_view(pieces@);
        let p = bare_arg_string(&args[i]);
        pieces.push(p);
        assert(strings_view(pieces@) =~= before.push(bare_arg_text(args@[i as int])));
        assert(args@.take(i + 1).map_values(|arg: ArgInfo| bare_arg_text(arg)) =~= args@.take(i as int).map_values(
            |arg: ArgInfo| bare_arg_text(arg),
        ).push(bare_arg_text(args@[i as int])));
    }
    assert(args@.take(n as int) == args@);
    join_strings(pieces.as_slice(), ' ')
}

/// Appends how `m` is named in its usage line to `out`.
fn push_usage_name<S, A>(out: &mut String, m: &FunctionInfo<S, A>, enable_short: bool)
    requires
        !m.is_bare ==> m.name@.len() > 0,
    ensures
        final(out)@ == old(out)@ + usage_name(*m, enable_short),
{
    if m.is_default {
        push_text(out, "[");
    }
    if m.is_bare {
        push_text(out, m.name);
    } else if enable_short {
        let name = chars_of(m.name);
        push_text(out, "-");
        push_char(out, name[0]);
        push_text(out, "/--");
        push_text(out, m.name);
    } else {
        push_text(out, "--");
        push_text(out, m.name);
    }
    if m.is_default {
        push_text(out, "]");
    }
    assert(out@ =~= old(out)@ + usage_name(*m, enable_short));
}

/// Appends the help block of `m` to `out`.
fn push_method_help<S, A>(out: &mut String, m: &FunctionInfo<S, A>, prog: &str, enable_short: bool, width: usize, named: bool)
    requires
        !m.is_bare ==> m.name@.len() > 0 && arg_names_nonempty(m.args@),
    ensures
        final(out)@ == old(out)@ + method_help(*m, prog@, enable_short, width, named),
{
    let mut s = String::new();
    if let Some(desc) = m.desc {
        push_text(&mut s, "Desc:  ");
        push_text(&mut s, desc);
        push_text(&mut s, "\n");
    }
    let ghost desc_part = s@;
    let mut usage = String::new();
    push_text(&mut usage, "Usage: ");
    push_text(&mut usage, prog);
    if named {
        push_text(&mut usage, " ");
        push_usage_name(&mut usage, m, enable_short);
        assert(usage@ =~= "Usage: "@ + prog@ + " "@ + usage_name(*m, enable_short));
    }
    if m.is_bare {
        let joined = bare_args_string(m.args);
        if joined.as_str().is_empty() {
            push_text(&mut usage, "\n");
        } else {
            push_text(&mut usage, " ");
            push_text(&mut usage, joined.as_str());
            push_text(&mut usage, "\n");
        }
    } else if m.args.len() == 0 {
        push_text(&mut usage, "\n");
    } else {
        push_text(&mut usage, " [Options]");
        push_text(&mut usage, "\n");
        push_text(&mut usage, "Options:");
        push_text(&mut usage, "\n");
        push_options(&mut usage, m.args, enable_short, width);
    }
    push_text(&mut s, usage.as_str());
    push_text(&mut s, "\n");
    assert(s@ =~= method_help(*m, prog@, enable_short, width, named));
    push_text(out, s.as_str());
}

/// The help text for `methods` of the program started as `arg0`.
pub fn appentry_help_text<S, A>(arg0: &str, methods: &Vec<&'static FunctionInfo<S, A>>, enable_short: bool) -> (r: String)
    requires
        help_renderable(method_seq(methods@)),
    ensures
        r@ == help_text(method_seq(methods@), arg0@, enable_short),
{
    let ghost ms = method_seq(methods@);
    let prog = program_name(arg0);
    let width = help_width_of(methods, enable_short);
    let mut out = String::new();
    let n = methods.len();
    let named = n != 1;
    for i in 0..n
        invariant
            n == methods@.len(),
            ms == method_seq(methods@),
            help_renderable(ms),
            prog@ == program_name_of(arg0@),
            width == help_width(ms, enable_short),
            named == (ms.len() != 1),
            out@ == methods_help(ms.take(i as int), prog@, enable_short, width, named),
    {
        assert(ms.take(i + 1).drop_last() == ms.take(i as int));
        let m = methods[i];
        assert(ms[i as int] == *m);
        push_method_help(&mut out, m, prog.as_str(), enable_short, width, named);
    }
    assert(ms.take(n as int) == ms);
    out
}

/// Whether every argument of `args` has a non-empty name.
fn arg_names_present(args: &[ArgInfo]) -> (r: bool)
    ensures
        r == arg_names_nonempty(args@),
{
    let n = args.len();
    for i in 0..n
        invariant
            n == args@.len(),
            forall|j: int| 0 <= j < i ==> (#[trigger] args@[j]).name@.len() > 0,
    {
        let v = chars_of(args[i].name);
        if v.len() == 0 {
            return false;
        }
    }
    true
}

/// Whether help can be rendered for `methods` (see `help_renderable`).
pub fn help_is_renderable<S, A>(methods: &Vec<&'static FunctionInfo<S, A>>) -> (r: bool)
    ensures
        r == help_renderable(method_seq(methods@)),
{
    let ghost ms = method_seq(methods@);
    let n = methods.len();
    for i in 0..n
        invariant
            n == methods@.len(),
            ms == method_seq(methods@),
            forall|j: int|
                0 <= j < i && !(#[trigger] ms[j]).is_bare ==> ms[j].name@.len() > 0 && arg_names_nonempty(ms[j].args@),
    {
        let m = methods[i];
        assert(ms[i as int] == *m);
        if !m.is_bare {
            let name = chars_of(m.name);
            if name.len() == 0 || !arg_names_present(m.args) {
                return false;
            }
        }
    }
    true
}

} // verus!
