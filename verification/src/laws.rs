//! Properties that relate the parsers, the readers and the method selection.
use vstd::prelude::*;

use crate::docs::param_flags;
use crate::info::{ArgInfo, FunctionInfo};
use crate::parse::{
    bare_args_result, first_vec_string_index, flag_args_map, fold_flags, has_flag_word, long_name,
    positional_map,
};
use crate::select::{
    claims_word, default_count, first_claim, first_default, lemma_no_claim_before, matches_flag,
    names_in_wrong_form, select_method, some_wrong_form, Selection,
};
use crate::text::{join_with, lemma_split_nonempty, split_on, starts_with_char};
use crate::values::{take_list, take_named};

verus! {

/// `c` does not occur in any of `parts`.
pub open spec fn none_contains(parts: Seq<Seq<char>>, c: char) -> bool {
    forall|i: int| 0 <= i < parts.len() ==> !(#[trigger] parts[i]).contains(c)
}

/// The argument names of `args` are pairwise different.
pub open spec fn arg_names_distinct(args: Seq<ArgInfo>) -> bool {
    forall|i: int, j: int| 0 <= i < j < args.len() ==> #[trigger] args[i].name@ != #[trigger] args[j].name@
}

proof fn lemma_split_append(a: Seq<char>, t: Seq<char>, sep: char)
    requires
        !t.contains(sep),
    ensures
        split_on(a + t, sep) == split_on(a, sep).update(
            split_on(a, sep).len() - 1,
            split_on(a, sep).last() + t,
        ),
        split_on(a, sep).len() > 0,
    decreases t.len(),
{
    lemma_split_nonempty(a, sep);
    if t.len() == 0 {
        assert(a + t == a);
        assert(split_on(a, sep).last() + t == split_on(a, sep).last());
        assert(split_on(a, sep).update(split_on(a, sep).len() - 1, split_on(a, sep).last()) =~= split_on(a, sep));
    } else {
        let t0 = t.drop_last();
        assert(!t0.contains(sep)) by {
            if t0.contains(sep) {
                let k = choose|k: int| 0 <= k < t0.len() && t0[k] == sep;
                assert(t[k] == sep);
            }
        }
        lemma_split_append(a, t0, sep);
        assert((a + t).drop_last() == a + t0);
        assert((a + t).last() == t.last());
        assert(t.last() != sep) by {
            assert(t[t.len() - 1] == t.last());
        }
        lemma_split_nonempty(a + t0, sep);
        let r0 = split_on(a, sep);
        let r = split_on(a + t0, sep);
        assert(r.len() == r0.len());
        assert(r.last() == r0.last() + t0);
        assert((r0.last() + t0).push(t.last()) =~= r0.last() + t);
        assert(split_on(a + t, sep) == r.update(r.len() - 1, r.last().push(t.last())));
        assert(split_on(a + t, sep) =~= r0.update(r0.len() - 1, r0.last() + t));
    }
}

/// Splitting at `sep` the pieces joined with `sep` gives the pieces back,
/// when there is at least one piece and no piece holds `sep`.
pub proof fn law_split_join(parts: Seq<Seq<char>>, sep: char)
    requires
        parts.len() > 0,
        none_contains(parts, sep),
    ensures
        split_on(join_with(parts, sep), sep) == parts,
    decreases parts.len(),
{
    let last = parts.last();
    assert(!last.contains(sep)) by {
        assert(parts[parts.len() - 1] == last);
    }
    if parts.len() == 1 {
        lemma_split_append(Seq::empty(), parts[0], sep);
        assert(Seq::<char>::empty() + parts[0] == parts[0]);
        assert(split_on(Seq::<char>::empty(), sep) == seq![Seq::<char>::empty()]);
        assert(split_on(parts[0], sep) =~= parts);
    } else {
        let init = parts.drop_last();
        assert(none_contains(init, sep)) by {
            assert forall|i: int| 0 <= i < init.len() implies !(#[trigger] init[i]).contains(sep) by {
                assert(init[i] == parts[i]);
            }
        }
        law_split_join(init, sep);
        let j = join_with(init, sep);
        lemma_split_append(j.push(sep), last, sep);
        assert(split_on(j.push(sep), sep) == split_on(j, sep).push(Seq::<char>::empty())) by {
            assert(j.push(sep).drop_last() == j);
        }
        assert(Seq::<char>::empty() + last == last);
        assert(split_on(join_with(parts, sep), sep) =~= parts);
    }
}

/// Pieces joined with a separator are empty only when there are none, or
/// there is one empty piece.
proof fn lemma_join_empty(parts: Seq<Seq<char>>, sep: char)
    ensures
        join_with(parts, sep).len() == 0 ==> parts.len() == 0 || (parts.len() == 1 && parts[0].len() == 0),
{
    if parts.len() >= 2 {
        assert(join_with(parts, sep) == join_with(parts.drop_last(), sep).push(sep) + parts.last());
    }
}

/// The names under which `positional_map` stores values are the long names
/// of the arguments.
proof fn lemma_positional_keys(args: Seq<ArgInfo>, vals: Seq<Seq<char>>, k: Seq<char>)
    requires
        positional_map(args, vals).contains_key(k),
    ensures
        exists|j: int| 0 <= j < args.len() && k == long_name(#[trigger] args[j].name@),
    decreases args.len(),
{
    if args.len() > 0 {
        let init = args.drop_last();
        if k == long_name(args.last().name@) {
            assert(args[args.len() - 1] == args.last());
        } else {
            lemma_positional_keys(init, vals.drop_last(), k);
            let j = choose|j: int| 0 <= j < init.len() && k == long_name(#[trigger] init[j].name@);
            assert(init[j] == args[j]);
        }
    }
}

/// The value stored under the long name of argument `i` is word `i`, when
/// argument names are pairwise different.
pub proof fn law_positional_value(args: Seq<ArgInfo>, vals: Seq<Seq<char>>, i: int)
    requires
        args.len() == vals.len(),
        arg_names_distinct(args),
        0 <= i < args.len(),
    ensures
        positional_map(args, vals).contains_key(long_name(args[i].name@)),
        positional_map(args, vals)[long_name(args[i].name@)] == Some(vals[i]),
    decreases args.len(),
{
    let n = args.len();
    if i < n - 1 {
        let init = args.drop_last();
        assert(arg_names_distinct(init)) by {
            assert forall|a: int, b: int| 0 <= a < b < init.len() implies #[trigger] init[a].name@ != #[trigger] init[b].name@ by {
                assert(init[a] == args[a] && init[b] == args[b]);
            }
        }
        law_positional_value(init, vals.drop_last(), i);
        assert(init[i] == args[i]);
        assert(args[i].name@ != args[n - 1].name@);
        assert(long_name(args[i].name@) != long_name(args.last().name@)) by {
            if long_name(args[i].name@) == long_name(args.last().name@) {
                assert(args[i].name@ =~= long_name(args[i].name@).skip(2));
                assert(args.last().name@ =~= long_name(args.last().name@).skip(2));
            }
        }
    }
}

/// What a bare positional gives back: for a bare method without a
/// `Vec<String>` argument, with non-empty, pairwise different argument names,
/// called with as many words as it has arguments and none starting with `-`,
/// looking argument `i` up by its short and then its long flag (as the
/// generated entry wrapper does) finds word `i`, and takes it out.
pub proof fn law_bare_positional_read_back<S, A>(m: FunctionInfo<S, A>, raw: Seq<Seq<char>>, i: int)
    requires
        first_vec_string_index(m.args@) is None,
        !has_flag_word(raw),
        raw.len() == m.args@.len(),
        forall|j: int| 0 <= j < m.args@.len() ==> (#[trigger] m.args@[j]).name@.len() > 0,
        arg_names_distinct(m.args@),
        0 <= i < raw.len(),
    ensures
        ({
            let name = m.args@[i].name@;
            let flags = param_flags(name);
            &&& bare_args_result(m, raw) == Ok::<Map<Seq<char>, Option<Seq<char>>>, crate::error::AppEntryError>(
                positional_map(m.args@, raw),
            )
            &&& take_named(positional_map(m.args@, raw), false, None, seq![flags.0, flags.1]) == (
                positional_map(m.args@, raw).remove(long_name(name)),
                true,
                Some(raw[i]),
            )
        }),
{
    let args = m.args@;
    let map = positional_map(args, raw);
    let name = args[i].name@;
    let flags = param_flags(name);
    law_positional_value(args, raw, i);
    assert(flags.1 == long_name(name));
    assert(!map.contains_key(flags.0)) by {
        if map.contains_key(flags.0) {
            lemma_positional_keys(args, raw, flags.0);
            let j = choose|j: int| 0 <= j < args.len() && flags.0 == long_name(#[trigger] args[j].name@);
            assert(args[j].name@.len() > 0);
            assert(flags.0.len() == 2);
        }
    }
    let names = seq![flags.0, flags.1];
    assert(names.drop_first() =~= seq![flags.1]);
    assert(seq![flags.1].drop_first() =~= Seq::<Seq<char>>::empty());
    let last = take_named(map.remove(flags.1), true, map[flags.1], Seq::<Seq<char>>::empty());
    assert(last == (map.remove(flags.1), true, Some(raw[i])));
    assert(take_named(map, false, None, seq![flags.1]) == last);
    assert(take_named(map, false, None, names) == take_named(map, false, None, seq![flags.1]));
    assert(first_vec_string_index(args) is None);
    assert(bare_args_result(m, raw) == Ok::<Map<Seq<char>, Option<Seq<char>>>, crate::error::AppEntryError>(map));
}

/// After a bare method with a trailing `Vec<String>` argument has taken its
/// words, reading that argument as a list gives back exactly the trailing
/// words, when none of them holds `'\0'` and they are not a single empty
/// word.
pub proof fn law_vec_tail_round_trip<S, A>(m: FunctionInfo<S, A>, raw: Seq<Seq<char>>)
    requires
        first_vec_string_index(m.args@) == Some((m.args@.len() - 1) as int),
        !has_flag_word(raw),
        raw.len() >= m.args@.len() - 1,
        none_contains(raw.skip(m.args@.len() - 1), '\0'),
        !(raw.skip(m.args@.len() - 1).len() == 1 && raw.skip(m.args@.len() - 1)[0].len() == 0),
    ensures
        bare_args_result(m, raw) matches Ok(map) && take_list(
            map,
            seq![long_name(m.args@[m.args@.len() - 1].name@)],
        ).1 == raw.skip(m.args@.len() - 1),
{
    let v = m.args@.len() - 1;
    let tail = raw.skip(v);
    let joined = join_with(tail, '\0');
    let key = long_name(m.args@[v].name@);
    let map = positional_map(m.args@.take(v), raw.take(v)).insert(key, Some(joined));
    assert(bare_args_result(m, raw) == Ok::<Map<Seq<char>, Option<Seq<char>>>, crate::error::AppEntryError>(map));
    lemma_join_empty(tail, '\0');
    if tail.len() > 0 {
        law_split_join(tail, '\0');
    } else {
        assert(tail =~= Seq::<Seq<char>>::empty());
    }
    assert(seq![key][0] == key);
}

/// Reading an argument takes every one of its names out of the table and
/// leaves all other names as they were.
pub proof fn law_reading_removes_names(
    m: Map<Seq<char>, Option<Seq<char>>>,
    found: bool,
    value: Option<Seq<char>>,
    names: Seq<Seq<char>>,
)
    ensures
        take_named(m, found, value, names).0 == m.remove_keys(names.to_set()),
    decreases names.len(),
{
    if names.len() == 0 {
        assert(m.remove_keys(names.to_set()) =~= m);
    } else {
        let rest = names.drop_first();
        let m2 = if m.contains_key(names[0]) { m.remove(names[0]) } else { m };
        let f2 = if m.contains_key(names[0]) { true } else { found };
        let v2 = if m.contains_key(names[0]) { m[names[0]] } else { value };
        law_reading_removes_names(m2, f2, v2, rest);
        assert forall|k: Seq<char>| names.to_set().contains(k) <==> (k == names[0] || rest.to_set().contains(k)) by {
            if names.to_set().contains(k) {
                let j = choose|j: int| 0 <= j < names.len() && names[j] == k;
                if j > 0 {
                    assert(rest[j - 1] == k);
                }
            }
            if rest.to_set().contains(k) {
                let j = choose|j: int| 0 <= j < rest.len() && rest[j] == k;
                assert(names[j + 1] == k);
            }
            if k == names[0] {
                assert(names.contains(k));
            }
        }
        assert(m2.remove_keys(rest.to_set()) =~= m.remove_keys(names.to_set()));
    }
}

/// Every name in the table of a flag method's arguments is one of the words,
/// and every value stored there is one of the words and does not start with
/// `-`.
pub proof fn law_flag_entries_come_from_words(
    acc: Map<Seq<char>, Option<Seq<char>>>,
    raw: Seq<Seq<char>>,
    k: Seq<char>,
)
    requires
        fold_flags(acc, raw).contains_key(k),
    ensures
        acc.contains_key(k) || raw.contains(k),
        fold_flags(acc, raw)[k] matches Some(v) ==> (acc.contains_key(k) && acc[k] == Some(v)) || (raw.contains(v)
            && !starts_with_char(v, '-')),
    decreases raw.len(),
{
    if raw.len() > 0 {
        if raw.len() >= 2 && !starts_with_char(raw[1], '-') {
            let acc2 = acc.insert(raw[0], Some(raw[1]));
            law_flag_entries_come_from_words(acc2, raw.skip(2), k);
            if raw.skip(2).contains(k) {
                let j = choose|j: int| 0 <= j < raw.skip(2).len() && raw.skip(2)[j] == k;
                assert(raw[j + 2] == k);
            }
            if k == raw[0] {
                assert(raw[0] == k);
            }
            if let Some(v) = fold_flags(acc, raw)[k] {
                if raw.skip(2).contains(v) {
                    let j = choose|j: int| 0 <= j < raw.skip(2).len() && raw.skip(2)[j] == v;
                    assert(raw[j + 2] == v);
                }
                if acc2.contains_key(k) && acc2[k] == Some(v) && k == raw[0] {
                    assert(raw[1] == v);
                }
            }
        } else {
            let acc2 = acc.insert(raw[0], None);
            law_flag_entries_come_from_words(acc2, raw.skip(1), k);
            if raw.skip(1).contains(k) {
                let j = choose|j: int| 0 <= j < raw.skip(1).len() && raw.skip(1)[j] == k;
                assert(raw[j + 1] == k);
            }
            if k == raw[0] {
                assert(raw[0] == k);
            }
            if let Some(v) = fold_flags(acc, raw)[k] {
                if raw.skip(1).contains(v) {
                    let j = choose|j: int| 0 <= j < raw.skip(1).len() && raw.skip(1)[j] == v;
                    assert(raw[j + 1] == v);
                }
            }
        }
    }
}

/// The table of a flag method's arguments holds only words as names, and
/// only words not starting with `-` as values.
pub proof fn law_flag_table(raw: Seq<Seq<char>>, k: Seq<char>)
    requires
        flag_args_map(raw).contains_key(k),
    ensures
        raw.contains(k),
        flag_args_map(raw)[k] matches Some(v) ==> raw.contains(v) && !starts_with_char(v, '-'),
{
    law_flag_entries_come_from_words(Map::empty(), raw, k);
}

/// A sole registered method runs without a command word: it is chosen, and
/// the first word is left for its arguments, unless that word names it (then
/// it is consumed) or names it in the other form (then it is refused).  In
/// particular a bare default method's own name is never consumed.
pub proof fn law_sole_method_runs<S, A>(m: FunctionInfo<S, A>, enable_short: bool, args: Seq<Seq<char>>)
    ensures
        select_method(seq![m], enable_short, args) == if args.len() > 0 && claims_word(m, enable_short, args[0]) {
            Selection::Named(0)
        } else if args.len() > 0 && names_in_wrong_form(m, enable_short, args[0]) {
            Selection::WrongForm
        } else {
            Selection::Sole
        },
        m.is_bare && m.is_default ==> !(args.len() > 0 && claims_word(m, enable_short, args[0])),
{
    let ms = seq![m];
    let empty = Seq::<FunctionInfo<S, A>>::empty();
    assert(ms.drop_last() =~= empty);
    assert(ms.last() == m);
    if args.len() > 0 {
        assert(first_claim(empty, enable_short, args[0]) is None);
        if names_in_wrong_form(m, enable_short, args[0]) {
            assert(some_wrong_form(ms, enable_short, args[0])) by {
                assert(ms[0] == m);
            }
        } else {
            assert(!some_wrong_form(ms, enable_short, args[0])) by {
                assert forall|i: int| 0 <= i < ms.len() implies !names_in_wrong_form(
                    #[trigger] ms[i],
                    enable_short,
                    args[0],
                ) by {
                    assert(ms[i] == m);
                }
            }
        }
    }
}

/// A word that names a method in its own form selects the first such method,
/// whatever default exists.
pub proof fn law_named_method_wins<S, A>(ms: Seq<FunctionInfo<S, A>>, enable_short: bool, args: Seq<Seq<char>>, i: int)
    requires
        args.len() > 0,
        0 <= i < ms.len(),
        claims_word(ms[i], enable_short, args[0]),
        forall|j: int| 0 <= j < i ==> !claims_word(#[trigger] ms[j], enable_short, args[0]),
    ensures
        select_method(ms, enable_short, args) == Selection::Named(i),
{
    lemma_first_claim_is(ms, enable_short, args[0], i);
}

proof fn lemma_first_claim_is<S, A>(ms: Seq<FunctionInfo<S, A>>, enable_short: bool, word: Seq<char>, i: int)
    requires
        0 <= i < ms.len(),
        claims_word(ms[i], enable_short, word),
        forall|j: int| 0 <= j < i ==> !claims_word(#[trigger] ms[j], enable_short, word),
    ensures
        first_claim(ms, enable_short, word) == Some(i),
    decreases ms.len(),
{
    if i < ms.len() - 1 {
        let init = ms.drop_last();
        assert forall|j: int| 0 <= j < i implies !claims_word(#[trigger] init[j], enable_short, word) by {
            assert(init[j] == ms[j]);
        }
        assert(init[i] == ms[i]);
        lemma_first_claim_is(init, enable_short, word, i);
    } else {
        lemma_no_claim_before(ms.drop_last(), enable_short, word);
        assert forall|j: int| 0 <= j < ms.drop_last().len() implies !claims_word(#[trigger] ms.drop_last()[j], enable_short, word) by {
            assert(ms.drop_last()[j] == ms[j]);
        }
        assert(ms.last() == ms[i]);
    }
}


/// No method is named by the word `w`, in its own form or in the other one:
/// it does not select any method as a flag, is not the plain name of a
/// non-default bare method, and is not the plain name of a flag method.
pub open spec fn names_no_method<S, A>(ms: Seq<FunctionInfo<S, A>>, enable_short: bool, w: Seq<char>) -> bool {
    forall|j: int|
        0 <= j < ms.len() ==> {
            &&& !matches_flag((#[trigger] ms[j]).name@, enable_short, w)
            &&& (w != ms[j].name@ || (ms[j].is_bare && ms[j].is_default))
        }
}

proof fn lemma_unique_default<S, A>(ms: Seq<FunctionInfo<S, A>>, i: int)
    requires
        0 <= i < ms.len(),
        ms[i].is_default,
        forall|j: int| 0 <= j < ms.len() && j != i ==> !(#[trigger] ms[j]).is_default,
    ensures
        default_count(ms) == 1,
        first_default(ms) == Some(i),
    decreases ms.len(),
{
    let init = ms.drop_last();
    if i < ms.len() - 1 {
        assert(init[i] == ms[i]);
        assert forall|j: int| 0 <= j < init.len() && j != i implies !(#[trigger] init[j]).is_default by {
            assert(init[j] == ms[j]);
        }
        lemma_unique_default(init, i);
        assert(!ms[ms.len() - 1].is_default);
    } else {
        assert forall|j: int| 0 <= j < init.len() implies !(#[trigger] init[j]).is_default by {
            assert(init[j] == ms[j]);
        }
        lemma_no_default(init);
    }
}

proof fn lemma_no_default<S, A>(ms: Seq<FunctionInfo<S, A>>)
    requires
        forall|j: int| 0 <= j < ms.len() ==> !(#[trigger] ms[j]).is_default,
    ensures
        default_count(ms) == 0,
        first_default(ms) is None,
    decreases ms.len(),
{
    if ms.len() > 0 {
        let init = ms.drop_last();
        assert forall|j: int| 0 <= j < init.len() implies !(#[trigger] init[j]).is_default by {
            assert(init[j] == ms[j]);
        }
        lemma_no_default(init);
        assert(!ms[ms.len() - 1].is_default);
    }
}

/// When there are several methods, exactly one of them (at `i`) is the
/// default, and the first word (if any) names no method in either form,
/// choosing a method gives that default method and consumes no word — for any
/// first word, in particular a positional value; and the command line runs
/// that method on all its words (unless it asks for help).
pub proof fn law_single_default_runs_when_nothing_named<S, A>(
    ms: Seq<FunctionInfo<S, A>>,
    enable_short: bool,
    args: Seq<String>,
    i: int,
)
    requires
        ms.len() > 1,
        0 <= i < ms.len(),
        ms[i].is_default,
        forall|j: int| 0 <= j < ms.len() && j != i ==> !(#[trigger] ms[j]).is_default,
        args.len() > 0 ==> names_no_method(ms, enable_short, args[0]@),
    ensures
        forall|new_args: Seq<String>, r: Result<&'static FunctionInfo<S, A>, crate::error::AppEntryError>|
            #[trigger] crate::select::get_method_post(ms, enable_short, args, new_args, r) ==> (r matches Ok(m)
                && *m == ms[i] && new_args == args),
        (args.len() == 0 || args[0]@ != "--help"@) ==> crate::dispatch::dispatch_outcome(ms, enable_short, args)
            == match crate::parse::method_args_result(ms[i], crate::text::strings_view(args)) {
            Ok(values) => Some(Ok::<(int, Map<Seq<char>, Option<Seq<char>>>), crate::error::AppEntryError>((i, values))),
            Err(e) => Some(Err(e)),
        },
{
    let words = crate::text::strings_view(args);
    lemma_unique_default(ms, i);
    if args.len() > 0 {
        let w = words[0];
        assert(w == args[0]@);
        assert forall|j: int| 0 <= j < ms.len() implies !claims_word(#[trigger] ms[j], enable_short, w) by {
            assert(names_no_method(ms, enable_short, w));
        }
        lemma_no_claim_before(ms, enable_short, w);
        assert(!some_wrong_form(ms, enable_short, w)) by {
            assert forall|j: int| 0 <= j < ms.len() implies !names_in_wrong_form(#[trigger] ms[j], enable_short, w) by {
                assert(names_no_method(ms, enable_short, w));
            }
        }
    }
    assert(select_method(ms, enable_short, words) == Selection::Default(i));
}

proof fn lemma_first_vec_is(args: Seq<ArgInfo>, k: int)
    requires
        0 <= k < args.len(),
        crate::parse::is_vec_string_type(args[k].ty_name@),
        forall|j: int| 0 <= j < k ==> !crate::parse::is_vec_string_type((#[trigger] args[j]).ty_name@),
    ensures
        first_vec_string_index(args) == Some(k),
    decreases args.len(),
{
    let init = args.drop_last();
    if k < args.len() - 1 {
        assert(init[k] == args[k]);
        assert forall|j: int| 0 <= j < k implies !crate::parse::is_vec_string_type((#[trigger] init[j]).ty_name@) by {
            assert(init[j] == args[j]);
        }
        lemma_first_vec_is(init, k);
    } else {
        lemma_no_vec(init);
    }
}

proof fn lemma_no_vec(args: Seq<ArgInfo>)
    requires
        forall|j: int| 0 <= j < args.len() ==> !crate::parse::is_vec_string_type((#[trigger] args[j]).ty_name@),
    ensures
        first_vec_string_index(args) is None,
    decreases args.len(),
{
    if args.len() > 0 {
        let init = args.drop_last();
        assert forall|j: int| 0 <= j < init.len() implies !crate::parse::is_vec_string_type((#[trigger] init[j]).ty_name@) by {
            assert(init[j] == args[j]);
        }
        lemma_no_vec(init);
        assert(args.last() == args[args.len() - 1]);
    }
}

/// For a bare method whose last argument (only) is `Vec<String>`, with
/// pairwise different argument names, called with no flag word and at least as
/// many words as it has arguments before the last: every argument `i` before
/// the last is stored under `--<name>` with word `i`.
pub proof fn law_positionals_before_vec_tail<S, A>(m: FunctionInfo<S, A>, raw: Seq<Seq<char>>, i: int)
    requires
        m.args@.len() > 0,
        crate::parse::is_vec_string_type(m.args@[m.args@.len() - 1].ty_name@),
        forall|j: int| 0 <= j < m.args@.len() - 1 ==> !crate::parse::is_vec_string_type((#[trigger] m.args@[j]).ty_name@),
        forall|j: int| 0 <= j < raw.len() ==> !starts_with_char(#[trigger] raw[j], '-'),
        raw.len() >= m.args@.len() - 1,
        arg_names_distinct(m.args@),
        0 <= i < m.args@.len() - 1,
    ensures
        bare_args_result(m, raw) matches Ok(map) && map.contains_key(long_name(m.args@[i].name@))
            && map[long_name(m.args@[i].name@)] == Some(raw[i]),
{
    let args = m.args@;
    let v = args.len() - 1;
    lemma_first_vec_is(args, v);
    assert(!has_flag_word(raw));
    let pre = args.take(v);
    assert(arg_names_distinct(pre)) by {
        assert forall|a: int, b: int| 0 <= a < b < pre.len() implies #[trigger] pre[a].name@ != #[trigger] pre[b].name@ by {
            assert(pre[a] == args[a] && pre[b] == args[b]);
        }
    }
    law_positional_value(pre, raw.take(v), i);
    assert(pre[i] == args[i]);
    assert(raw.take(v)[i] == raw[i]);
    assert(long_name(args[i].name@) != long_name(args[v].name@)) by {
        assert(args[i].name@ != args[v].name@);
        if long_name(args[i].name@) == long_name(args[v].name@) {
            assert(args[i].name@ =~= long_name(args[i].name@).skip(2));
            assert(args[v].name@ =~= long_name(args[v].name@).skip(2));
        }
    }
}

/// Reading an argument as a `String` gives exactly the text written for it,
/// character for character; with no text written it gives the empty string.
pub proof fn law_string_reads_as_written(found: bool, value: Option<Seq<char>>)
    ensures
        value matches Some(s) ==> crate::values::arg_value_of::<String>(found, value) == s,
        value is None ==> crate::values::arg_value_of::<String>(found, value) == Seq::<char>::empty(),
{
}

/// Reading a `String` argument out of a table gives exactly the text stored
/// under the last of its names that was taken out.
pub proof fn law_string_argument_is_its_text(
    m: Map<Seq<char>, Option<Seq<char>>>,
    names: Seq<Seq<char>>,
    s: Seq<char>,
)
    requires
        take_named(m, false, None, names).2 == Some(s),
    ensures
        ({
            let t = take_named(m, false, None, names);
            crate::values::arg_value_of::<String>(t.1, t.2) == s
        }),
{
}

/// What a method's usage line shows (inside `[...]` for a default method)
/// is what selects it on the command line: a non-default bare method's plain
/// name; for a flag method `--name` when short flags are off, and `-c/--name`,
/// two words that each select it, when they are on.
pub proof fn law_usage_name_selects<S, A>(m: FunctionInfo<S, A>, enable_short: bool)
    requires
        !m.is_bare ==> m.name@.len() > 0 && m.name@[0] != '-',
    ensures
        exists|shown: Seq<char>|
            #![trigger usage_shows(m, enable_short, shown)]
            usage_shows(m, enable_short, shown) && crate::help::usage_name(m, enable_short) == if m.is_default {
                "["@ + shown + "]"@
            } else {
                shown
            },
{
    reveal_strlit("-");
    reveal_strlit("--");
    reveal_strlit("/--");
    reveal_strlit("/");
    let name = m.name@;
    let shown = if m.is_bare {
        name
    } else if enable_short {
        "-"@ + seq![name[0]] + "/--"@ + name
    } else {
        "--"@ + name
    };
    if !m.is_bare {
        let long = seq!['-', '-'] + name;
        assert(long.skip(2) =~= name);
        assert(long.subrange(0, 2) =~= seq!['-', '-']);
        assert(has_prefix_dashes(long));
        if enable_short {
            let short = seq!['-', name[0]];
            assert(short.skip(1) =~= seq![name[0]]);
            assert(!has_prefix_dashes(short)) by {
                assert(short.subrange(0, 2)[1] == name[0]);
            }
            assert(shown =~= short + "/"@ + long);
            assert(two_selecting_words(m, shown, short, long));
        } else {
            assert(shown =~= long);
        }
    }
    assert(usage_shows(m, enable_short, shown));
}

/// `w` begins with `--`.
pub open spec fn has_prefix_dashes(w: Seq<char>) -> bool {
    crate::text::has_prefix(w, seq!['-', '-'])
}

/// `shown` is `w1/w2` where both words select the flag method `m` with short
/// flags on.
pub open spec fn two_selecting_words<S, A>(m: FunctionInfo<S, A>, shown: Seq<char>, w1: Seq<char>, w2: Seq<char>) -> bool {
    shown == w1 + "/"@ + w2 && matches_flag(m.name@, true, w1) && matches_flag(m.name@, true, w2)
}

/// `shown` is what selects `m`: its plain name if it is bare (taken as a
/// command unless it is the default), one flag word with short flags off,
/// two flag words joined by `/` with short flags on.
pub open spec fn usage_shows<S, A>(m: FunctionInfo<S, A>, enable_short: bool, shown: Seq<char>) -> bool {
    if m.is_bare {
        shown == m.name@ && (!m.is_default ==> claims_word(m, enable_short, shown))
    } else if enable_short {
        exists|w1: Seq<char>, w2: Seq<char>| #[trigger] two_selecting_words(m, shown, w1, w2)
    } else {
        matches_flag(m.name@, enable_short, shown)
    }
}

/// A backticked-name line gives a description for `p` only if `` `p` ``
/// occurs in it, and the description is the trimmed rest of the line after a
/// ` - ` that follows that occurrence.
pub proof fn law_backtick_description_needs_quoted_name(t: Seq<char>, p: Seq<char>)
    ensures
        crate::docs::backtick_desc(t, p) matches Some(d) ==> crate::text::contains_seq(t, seq!['`'] + p + seq!['`'])
            && exists|k: int| 0 <= k <= t.len() && d == #[trigger] crate::docs::trim(t.skip(k)),
{
    reveal(crate::docs::backtick_desc);
    if let Some(d) = crate::docs::backtick_desc(t, p) {
        let q = seq!['`'] + p + seq!['`'];
        lemma_found_occurs(t, q);
        let start = crate::text::find_seq(t, q)->0;
        let rest = t.skip(start);
        lemma_found_occurs(rest, seq![' ', '-', ' ']);
        let dash = crate::text::find_seq(rest, seq![' ', '-', ' '])->0;
        let k = start + dash + 3;
        assert(rest.skip(dash + 3) =~= t.skip(k));
        assert(d == crate::docs::trim(t.skip(k)));
    }
}

proof fn lemma_found_occurs(s: Seq<char>, q: Seq<char>)
    ensures
        crate::text::find_seq(s, q) matches Some(i) ==> crate::text::occurs_at(s, q, i) && crate::text::contains_seq(s, q),
{
    reveal(crate::text::find_seq);
    reveal(crate::text::contains_seq);
    if crate::text::contains_seq(s, q) {
        let k = choose|k: int| crate::text::occurs_at(s, q, k);
        lemma_first_occurrence_exists(s, q, k);
    }
}

proof fn lemma_first_occurrence_exists(s: Seq<char>, q: Seq<char>, k: int)
    requires
        crate::text::occurs_at(s, q, k),
    ensures
        exists|i: int| crate::text::occurs_at(s, q, i) && forall|j: int| 0 <= j < i ==> !crate::text::occurs_at(s, q, j),
    decreases k,
{
    if exists|j: int| 0 <= j < k && crate::text::occurs_at(s, q, j) {
        let j = choose|j: int| 0 <= j < k && crate::text::occurs_at(s, q, j);
        lemma_first_occurrence_exists(s, q, j);
    } else {
        assert(forall|j: int| 0 <= j < k ==> !crate::text::occurs_at(s, q, j));
    }
}

proof fn lemma_first_desc_source(lines: Seq<Seq<char>>, p: Seq<char>, by_backtick: bool)
    ensures
        first_desc_found(lines, p, by_backtick),
    decreases lines.len(),
{
    if lines.len() > 0 {
        lemma_first_desc_source(lines.drop_first(), p, by_backtick);
        let t = crate::docs::trim(lines[0]);
        let d = if by_backtick {
            crate::docs::backtick_desc(t, p)
        } else {
            crate::docs::colon_desc(t, p)
        };
        if d is None {
            if let Some(x) = crate::docs::first_desc(lines.drop_first(), p, by_backtick) {
                let i = choose|i: int| 0 <= i < lines.drop_first().len() && #[trigger] line_gives(lines.drop_first()[i], p, by_backtick, x);
                assert(lines.drop_first()[i] == lines[i + 1]);
                assert(line_gives(lines[i + 1], p, by_backtick, x));
            }
        } else {
            assert(line_gives(lines[0], p, by_backtick, d->0));
        }
    }
}

/// The line `l` gives the description `d` for `p`.
pub open spec fn line_gives(l: Seq<char>, p: Seq<char>, by_backtick: bool, d: Seq<char>) -> bool {
    if by_backtick {
        crate::docs::backtick_desc(crate::docs::trim(l), p) == Some(d)
    } else {
        crate::docs::colon_desc(crate::docs::trim(l), p) == Some(d)
    }
}

/// A description found in `lines` was given by one of them.
pub open spec fn first_desc_found(lines: Seq<Seq<char>>, p: Seq<char>, by_backtick: bool) -> bool {
    crate::docs::first_desc(lines, p, by_backtick) matches Some(d) ==> exists|i: int|
        0 <= i < lines.len() && #[trigger] line_gives(lines[i], p, by_backtick, d)
}

/// A parameter description comes from one line of the doc comment: a line
/// that holds `` `p` `` (backticked), or a line that starts with `p` and holds
/// a `:`; the description is a trimmed tail of that line.  In particular a
/// line whose only occurrence of `p` is inside another backticked name (say
/// `` `max` `` for `x`) gives no description through its backticks.
pub proof fn law_param_description_source(doc: Seq<char>, p: Seq<char>)
    ensures
        crate::docs::param_description(doc, p) matches Some(d) ==> exists|i: int|
            0 <= i < crate::docs::lines_of(doc).len() && #[trigger] described_by(
                crate::docs::trim(crate::docs::lines_of(doc)[i]),
                p,
                d,
            ),
{
    let lines = crate::docs::lines_of(doc);
    lemma_first_desc_source(lines, p, true);
    lemma_first_desc_source(lines, p, false);
    if let Some(d) = crate::docs::param_description(doc, p) {
        let by = crate::docs::first_desc(lines, p, true) is Some;
        let i = choose|i: int| 0 <= i < lines.len() && #[trigger] line_gives(lines[i], p, by, d);
        let t = crate::docs::trim(lines[i]);
        if by {
            law_backtick_description_needs_quoted_name(t, p);
        } else {
            law_colon_description_source(t, p);
        }
        assert(described_by(t, p, d));
    }
}

/// The trimmed line `t` can give the description `d` for `p`: it holds
/// `` `p` `` or starts with `p` and holds `:`, and `d` is a trimmed tail of it.
pub open spec fn described_by(t: Seq<char>, p: Seq<char>, d: Seq<char>) -> bool {
    &&& crate::text::contains_seq(t, seq!['`'] + p + seq!['`']) || (crate::text::has_prefix(t, p) && t.contains(':'))
    &&& exists|k: int| 0 <= k <= t.len() && d == #[trigger] crate::docs::trim(t.skip(k))
}

/// A `name: description` line gives a description for `p` only if it starts
/// with `p` and holds `:`; the description is the trimmed rest after the
/// first `:`.
pub proof fn law_colon_description_source(t: Seq<char>, p: Seq<char>)
    ensures
        crate::docs::colon_desc(t, p) matches Some(d) ==> crate::text::has_prefix(t, p) && t.contains(':')
            && exists|k: int| 0 <= k <= t.len() && d == #[trigger] crate::docs::trim(t.skip(k)),
{
    reveal(crate::docs::colon_desc);
    if let Some(d) = crate::docs::colon_desc(t, p) {
        lemma_found_occurs(t, seq![':']);
        let c = crate::text::find_seq(t, seq![':'])->0;
        assert(d == crate::docs::trim(t.skip(c + 1)));
    }
}

} // verus!
