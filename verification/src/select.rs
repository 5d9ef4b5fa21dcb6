//! Choosing the entry method that the first command-line word names.
//!
//! A bare method is named by its plain name (`add`); a flag method by
//! `--name`, or by `-c` for the first character `c` of its name when short
//! flags are enabled.  Naming a method in the other form is an error; naming
//! nothing runs the only registered method, if there is just one, or else
//! falls back to the single default method; nothing is consumed then.
use vstd::prelude::*;

use crate::error::AppEntryError;
use crate::info::FunctionInfo;
use crate::text::{chars_eq, chars_have_prefix, chars_of, has_prefix, starts_with_char, strings_view, text_eq};

verus! {

/// Whether `word` names a method called `method_name` in flag form.
pub open spec fn matches_flag(method_name: Seq<char>, enable_short: bool, word: Seq<char>) -> bool {
    if has_prefix(word, seq!['-', '-']) {
        word.skip(2) == method_name
    } else if enable_short && starts_with_char(word, '-') {
        method_name.len() > 0 && word.skip(1) == seq![method_name[0]]
    } else {
        false
    }
}

/// Whether `word` selects `m` (and is consumed by it).
pub open spec fn claims_word<S, A>(m: FunctionInfo<S, A>, enable_short: bool, word: Seq<char>) -> bool {
    if m.is_bare {
        !m.is_default && word == m.name@
    } else {
        matches_flag(m.name@, enable_short, word)
    }
}

/// Whether `word` names `m` in the form that `m` does not use.
pub open spec fn names_in_wrong_form<S, A>(m: FunctionInfo<S, A>, enable_short: bool, word: Seq<char>) -> bool {
    if m.is_bare {
        matches_flag(m.name@, enable_short, word)
    } else {
        word == m.name@
    }
}

/// The position of the first method that `word` selects.
pub open spec fn first_claim<S, A>(ms: Seq<FunctionInfo<S, A>>, enable_short: bool, word: Seq<char>) -> Option<int>
    decreases ms.len(),
{
    if ms.len() == 0 {
        None
    } else {
        match first_claim(ms.drop_last(), enable_short, word) {
            Some(i) => Some(i),
            None => if claims_word(ms.last(), enable_short, word) {
                Some(ms.len() - 1)
            } else {
                None
            },
        }
    }
}

/// Some method is named by `word` in the wrong form.
pub open spec fn some_wrong_form<S, A>(ms: Seq<FunctionInfo<S, A>>, enable_short: bool, word: Seq<char>) -> bool {
    exists|i: int| 0 <= i < ms.len() && names_in_wrong_form(#[trigger] ms[i], enable_short, word)
}

/// The number of default methods.
pub open spec fn default_count<S, A>(ms: Seq<FunctionInfo<S, A>>) -> nat
    decreases ms.len(),
{
    if ms.len() == 0 {
        0
    } else {
        default_count(ms.drop_last()) + if ms.last().is_default { 1nat } else { 0nat }
    }
}

/// The position of the first default method.
pub open spec fn first_default<S, A>(ms: Seq<FunctionInfo<S, A>>) -> Option<int>
    decreases ms.len(),
{
    if ms.len() == 0 {
        None
    } else {
        match first_default(ms.drop_last()) {
            Some(i) => Some(i),
            None => if ms.last().is_default {
                Some(ms.len() - 1)
            } else {
                None
            },
        }
    }
}

/// How a method is chosen for the words `args`.
pub enum Selection {
    /// The first word selects the method at this position and is consumed.
    Named(int),
    /// The first word names a method in the wrong form.
    WrongForm,
    /// The single default method, at this position, is chosen.
    Default(int),
    /// The only registered method is chosen (no word is consumed).
    Sole,
    /// There is no default method to fall back to.
    Missing,
    /// There is more than one default method to fall back to.
    Ambiguous,
}

/// How a method is chosen among `ms` for the words `args`.
pub open spec fn select_method<S, A>(ms: Seq<FunctionInfo<S, A>>, enable_short: bool, args: Seq<Seq<char>>) -> Selection {
    if args.len() > 0 && first_claim(ms, enable_short, args[0]) is Some {
        Selection::Named(first_claim(ms, enable_short, args[0])->0)
    } else if args.len() > 0 && some_wrong_form(ms, enable_short, args[0]) {
        Selection::WrongForm
    } else if ms.len() == 1 {
        Selection::Sole
    } else if default_count(ms) == 0 {
        Selection::Missing
    } else if default_count(ms) == 1 {
        Selection::Default(first_default(ms)->0)
    } else {
        Selection::Ambiguous
    }
}

/// The methods behind a sequence of references.
pub open spec fn method_seq<S, A>(ms: Seq<&'static FunctionInfo<S, A>>) -> Seq<FunctionInfo<S, A>> {
    ms.map_values(|m: &'static FunctionInfo<S, A>| *m)
}

/// What `get_method` returns and leaves in `args` when choosing among `ms`.
pub open spec fn get_method_post<S, A>(
    ms: Seq<FunctionInfo<S, A>>,
    enable_short: bool,
    old_args: Seq<String>,
    new_args: Seq<String>,
    r: Result<&'static FunctionInfo<S, A>, AppEntryError>,
) -> bool {
    match select_method(ms, enable_short, strings_view(old_args)) {
        Selection::Named(i) => r matches Ok(m) && *m == ms[i] && new_args == old_args.remove(0),
        Selection::WrongForm => r == Err::<&'static FunctionInfo<S, A>, AppEntryError>(
            AppEntryError::InvalidCommandForm { name: old_args[0] },
        ) && new_args == old_args,
        Selection::Default(i) => r matches Ok(m) && *m == ms[i] && new_args == old_args,
        Selection::Sole => r matches Ok(m) && *m == ms[0] && new_args == old_args,
        Selection::Missing => r == Err::<&'static FunctionInfo<S, A>, AppEntryError>(AppEntryError::MissingCommand)
            && new_args == old_args,
        Selection::Ambiguous => false,
    }
}

/// Whether `name` names `method` in flag form (`--name`, or `-c` for the
/// first character `c` of the method name when `enable_short` is set).
pub fn method_matches_flag<S, A>(method: &FunctionInfo<S, A>, enable_short: bool, name: &str) -> (r: bool)
    ensures
        r == matches_flag(method.name@, enable_short, name@),
{
    let word = chars_of(name);
    let method_name = chars_of(method.name);
    let dashes = ['-', '-'];
    if chars_have_prefix(word.as_slice(), dashes.as_slice()) {
        assert(dashes@ =~= seq!['-', '-']);
        let rest = slice_from(word.as_slice(), 2);
        return chars_eq(rest.as_slice(), method_name.as_slice());
    }
    assert(dashes@ =~= seq!['-', '-']);
    if enable_short && word.len() > 0 && word[0] == '-' {
        if method_name.len() == 0 {
            return false;
        }
        let rest = slice_from(word.as_slice(), 1);
        let first = [method_name[0]];
        assert(first@ =~= seq![method_name@[0]]);
        return chars_eq(rest.as_slice(), first.as_slice());
    }
    false
}

/// The characters of `s` from position `from` on.
fn slice_from(s: &[char], from: usize) -> (r: Vec<char>)
    requires
        from <= s@.len(),
    ensures
        r@ == s@.skip(from as int),
{
    let mut out: Vec<char> = Vec::new();
    let n = s.len();
    for i in from..n
        invariant
            from <= n,
            n == s@.len(),
            out@ == s@.subrange(from as int, i as int),
    {
        out.push(s[i]);
        assert(out@ =~= s@.subrange(from as int, i + 1));
    }
    out
}

/// Choosing an entry method from a list of registered methods.
pub trait VecFunctionInfoExt<S, A> {
    /// The registered methods, in order.
    spec fn entry_methods(&self) -> Seq<FunctionInfo<S, A>>;

    /// Chooses the method that the first word of `args` names, consuming that
    /// word, or else the single default method (consuming nothing).
    fn get_method(&self, enable_short: bool, args: &mut Vec<String>) -> (r: Result<
        &'static FunctionInfo<S, A>,
        AppEntryError,
    >)
        requires
            !(select_method(self.entry_methods(), enable_short, strings_view(old(args)@)) is Ambiguous),
        ensures
            get_method_post(self.entry_methods(), enable_short, old(args)@, final(args)@, r),
    ;
}

impl<S, A> VecFunctionInfoExt<S, A> for Vec<&'static FunctionInfo<S, A>> {
    open spec fn entry_methods(&self) -> Seq<FunctionInfo<S, A>> {
        method_seq(self@)
    }

    fn get_method(&self, enable_short: bool, args: &mut Vec<String>) -> (r: Result<
        &'static FunctionInfo<S, A>,
        AppEntryError,
    >) {
        let ghost ms = method_seq(self@);
        let n = self.len();
        if args.len() > 0 {
            let name = args[0].clone();
            let ghost word = strings_view(args@)[0];
            assert(name@ == word);
            let mut wrong_mode_match = false;
            for i in 0..n
                invariant
                    n == self@.len(),
                    ms == method_seq(self@),
                    args@ == old(args)@,
                    args@.len() > 0,
                    word == strings_view(args@)[0],
                    name@ == word,
                    name == args@[0],
                    first_claim(ms.take(i as int), enable_short, word) is None,
                    wrong_mode_match == some_wrong_form(ms.take(i as int), enable_short, word),
            {
                let method: &'static FunctionInfo<S, A> = self[i];
                assert(ms[i as int] == *method);
                assert(ms.take(i + 1).drop_last() == ms.take(i as int));
                if method.is_bare {
                    if !method.is_default && text_eq(name.as_str(), method.name) {
                        proof {
                            lemma_first_claim_prefix(ms, enable_short, word, i + 1);
                        }
                        args.remove(0);
                        return Ok(method);
                    }
                    if method_matches_flag(method, enable_short, name.as_str()) {
                        wrong_mode_match = true;
                    }
                } else {
                    if method_matches_flag(method, enable_short, name.as_str()) {
                        proof {
                            lemma_first_claim_prefix(ms, enable_short, word, i + 1);
                        }
                        args.remove(0);
                        return Ok(method);
                    }
                    if text_eq(name.as_str(), method.name) {
                        wrong_mode_match = true;
                    }
                }
                proof {
                    let t = ms.take(i + 1);
                    if wrong_mode_match {
                        if names_in_wrong_form(ms[i as int], enable_short, word) {
                            assert(names_in_wrong_form(t[i as int], enable_short, word));
                        } else {
                            let j = choose|j: int| 0 <= j < i && names_in_wrong_form(#[trigger] ms.take(i as int)[j], enable_short, word);
                            assert(t[j] == ms.take(i as int)[j]);
                        }
                    } else {
                        assert forall|j: int| 0 <= j < t.len() implies !names_in_wrong_form(#[trigger] t[j], enable_short, word) by {
                            if j < i {
                                assert(t[j] == ms.take(i as int)[j]);
                            }
                        }
                    }
                }
            }
            assert(ms.take(n as int) == ms);
            if wrong_mode_match {
                return Err(AppEntryError::InvalidCommandForm { name });
            }
        }
        if n == 1 {
            assert(ms[0] == *self[0]);
            return Ok(self[0]);
        }
        let mut count: usize = 0;
        let mut found: Option<usize> = None;
        for i in 0..n
            invariant
                n == self@.len(),
                ms == method_seq(self@),
                count == default_count(ms.take(i as int)),
                count <= i,
                found matches Some(k) ==> first_default(ms.take(i as int)) == Some(k as int),
                found is None ==> first_default(ms.take(i as int)) is None,
        {
            assert(ms.take(i + 1).drop_last() == ms.take(i as int));
            assert(ms[i as int] == *self[i as int]);
            if self[i].is_default {
                count = count + 1;
                if found.is_none() {
                    found = Some(i);
                }
            }
        }
        assert(ms.take(n as int) == ms);
        if count == 0 {
            Err(AppEntryError::MissingCommand)
        } else {
            proof {
                lemma_first_default_index(ms);
            }
            let k = found.unwrap();
            Ok(self[k])
        }
    }
}

proof fn lemma_first_claim_prefix<S, A>(ms: Seq<FunctionInfo<S, A>>, enable_short: bool, word: Seq<char>, k: int)
    requires
        0 <= k <= ms.len(),
        first_claim(ms.take(k), enable_short, word) is Some,
    ensures
        first_claim(ms, enable_short, word) == first_claim(ms.take(k), enable_short, word),
    decreases ms.len() - k,
{
    if k < ms.len() {
        assert(ms.take(k + 1).drop_last() == ms.take(k));
        lemma_first_claim_prefix(ms, enable_short, word, k + 1);
    } else {
        assert(ms.take(k) == ms);
    }
}

proof fn lemma_first_default_index<S, A>(ms: Seq<FunctionInfo<S, A>>)
    ensures
        default_count(ms) > 0 ==> (first_default(ms) matches Some(i) && 0 <= i < ms.len() && ms[i].is_default),
        default_count(ms) == 0 ==> first_default(ms) is None,
    decreases ms.len(),
{
    if ms.len() > 0 {
        lemma_first_default_index(ms.drop_last());
    }
}

pub(crate) proof fn lemma_no_claim_before<S, A>(ms: Seq<FunctionInfo<S, A>>, enable_short: bool, word: Seq<char>)
    ensures
        (forall|j: int| 0 <= j < ms.len() ==> !claims_word(#[trigger] ms[j], enable_short, word)) ==> first_claim(
            ms,
            enable_short,
            word,
        ) is None,
    decreases ms.len(),
{
    if ms.len() > 0 {
        lemma_no_claim_before(ms.drop_last(), enable_short, word);
        if forall|j: int| 0 <= j < ms.len() ==> !claims_word(#[trigger] ms[j], enable_short, word) {
            assert forall|j: int| 0 <= j < ms.drop_last().len() implies !claims_word(#[trigger] ms.drop_last()[j], enable_short, word) by {
                assert(ms.drop_last()[j] == ms[j]);
            }
            assert(ms.last() == ms[ms.len() - 1]);
        }
    }
}


proof fn lemma_claim_found<S, A>(ms: Seq<FunctionInfo<S, A>>, enable_short: bool, word: Seq<char>, j: int)
    requires
        0 <= j < ms.len(),
        claims_word(ms[j], enable_short, word),
    ensures
        first_claim(ms, enable_short, word) is Some,
    decreases ms.len(),
{
    if j < ms.len() - 1 {
        assert(ms.drop_last()[j] == ms[j]);
        lemma_claim_found(ms.drop_last(), enable_short, word, j);
    } else {
        assert(ms.last() == ms[j]);
    }
}

/// Whether `m` is selected by `word`.
fn claims_word_of<S, A>(m: &FunctionInfo<S, A>, enable_short: bool, word: &str) -> (r: bool)
    ensures
        r == claims_word(*m, enable_short, word@),
{
    if m.is_bare {
        !m.is_default && text_eq(word, m.name)
    } else {
        method_matches_flag(m, enable_short, word)
    }
}

/// Whether `word` names `m` in the form that `m` does not use.
fn names_in_wrong_form_of<S, A>(m: &FunctionInfo<S, A>, enable_short: bool, word: &str) -> (r: bool)
    ensures
        r == names_in_wrong_form(*m, enable_short, word@),
{
    if m.is_bare {
        method_matches_flag(m, enable_short, word)
    } else {
        text_eq(word, m.name)
    }
}

/// Whether choosing a method for `args` would have to fall back to a default
/// method while several methods are marked default (which is not allowed).
pub fn selection_is_ambiguous<S, A>(methods: &Vec<&'static FunctionInfo<S, A>>, enable_short: bool, args: &Vec<String>) -> (r: bool)
    ensures
        r == (select_method(method_seq(methods@), enable_short, strings_view(args@)) is Ambiguous),
{
    let ghost ms = method_seq(methods@);
    let ghost words = strings_view(args@);
    let n = methods.len();
    let mut count: usize = 0;
    for i in 0..n
        invariant
            n == methods@.len(),
            ms == method_seq(methods@),
            count == default_count(ms.take(i as int)),
            count <= i,
    {
        assert(ms.take(i + 1).drop_last() == ms.take(i as int));
        assert(ms[i as int] == *methods[i as int]);
        if methods[i].is_default {
            count = count + 1;
        }
    }
    assert(ms.take(n as int) == ms);
    if count <= 1 {
        return false;
    }
    if args.len() == 0 {
        return true;
    }
    let word = args[0].as_str();
    assert(word@ == words[0]);
    for i in 0..n
        invariant
            n == methods@.len(),
            ms == method_seq(methods@),
            word@ == words[0],
            words == strings_view(args@),
            words.len() > 0,
            default_count(ms) > 1,
            forall|j: int| 0 <= j < i ==> !claims_word(#[trigger] ms[j], enable_short, words[0])
                && !names_in_wrong_form(ms[j], enable_short, words[0]),
    {
        assert(ms[i as int] == *methods[i as int]);
        if claims_word_of(methods[i], enable_short, word) {
            proof {
                lemma_claim_found(ms, enable_short, words[0], i as int);
            }
            return false;
        }
        if names_in_wrong_form_of(methods[i], enable_short, word) {
            proof {
                lemma_no_claim_before(ms, enable_short, words[0]);
                assert(names_in_wrong_form(ms[i as int], enable_short, words[0]));
                assert(some_wrong_form(ms, enable_short, words[0]));
            }
            return false;
        }
    }
    proof {
        lemma_no_claim_before(ms, enable_short, words[0]);
    }
    true
}

} // verus!
