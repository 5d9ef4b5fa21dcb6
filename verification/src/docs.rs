//! Reading entry-method metadata out of a function's doc comments and
//! attribute: the method description, the argument descriptions, whether the
//! method is the default, and the flag names of its parameters.
use vstd::prelude::*;

use crate::text::{
    chars_contain, chars_contain_char, chars_find, chars_have_prefix, chars_of, contains_seq,
    find_seq, has_prefix, join_strings, join_with, lowercase_of, push_char, push_chars,
    split_chars, split_on, starts_with_char, string_of, strings_view, to_lowercase,
};

verus! {

/// `c` is white space (the Unicode `White_Space` property, as
/// `char::is_whitespace` tests it).
#[verifier::opaque]
pub open spec fn is_space(c: char) -> bool {
    ('\u{9}' <= c && c <= '\u{d}') || c == ' ' || c == '\u{85}' || c == '\u{a0}' || c == '\u{1680}'
        || ('\u{2000}' <= c && c <= '\u{200a}') || c == '\u{2028}' || c == '\u{2029}' || c == '\u{202f}'
        || c == '\u{205f}' || c == '\u{3000}'
}

/// `s` without its leading white space.
pub open spec fn trim_start(s: Seq<char>) -> Seq<char>
    decreases s.len(),
{
    if s.len() > 0 && is_space(s[0]) {
        trim_start(s.drop_first())
    } else {
        s
    }
}

/// `s` without its trailing white space.
pub open spec fn trim_end(s: Seq<char>) -> Seq<char>
    decreases s.len(),
{
    if s.len() > 0 && is_space(s.last()) {
        trim_end(s.drop_last())
    } else {
        s
    }
}

/// `s` without leading and trailing white space, as `str::trim` gives it.
#[verifier::opaque]
pub open spec fn trim(s: Seq<char>) -> Seq<char> {
    trim_end(trim_start(s))
}

/// The views of a sequence of character vectors.
pub open spec fn line_views(v: Seq<Vec<char>>) -> Seq<Seq<char>> {
    v.map_values(|l: Vec<char>| l@)
}

/// A line without the `'\r'` of a `"\r\n"` ending.
pub open spec fn strip_cr(l: Seq<char>) -> Seq<char> {
    if l.len() > 0 && l.last() == '\r' {
        l.drop_last()
    } else {
        l
    }
}

/// Each line without the `'\r'` of a `"\r\n"` ending.
pub open spec fn strip_all(q: Seq<Seq<char>>) -> Seq<Seq<char>> {
    q.map_values(|l: Seq<char>| strip_cr(l))
}

/// The lines of `s`, as `str::lines` gives them: split at `'\n'`, a `'\r'`
/// before the `'\n'` dropped, and no empty last line after a final `'\n'`.
pub open spec fn lines_of(s: Seq<char>) -> Seq<Seq<char>> {
    let p = split_on(s, '\n');
    let init = strip_all(p.drop_last());
    if p.last().len() == 0 {
        init
    } else {
        init.push(p.last())
    }
}

/// The description that a `` * `name` - description `` line gives for the
/// parameter `p` (the trimmed line is `t`).
#[verifier::opaque]
pub open spec fn backtick_desc(t: Seq<char>, p: Seq<char>) -> Option<Seq<char>> {
    if contains_seq(t, p) && t.contains('`') && t.contains('-') {
        match find_seq(t, seq!['`'] + p + seq!['`']) {
            Some(start) => match find_seq(t.skip(start), seq![' ', '-', ' ']) {
                Some(dash) => {
                    desc_from(t, start + dash + 3)
                },
                None => None,
            },
            None => None,
        }
    } else {
        None
    }
}

/// The description that a `name: description` line gives for the parameter
/// `p` (the trimmed line is `t`).
#[verifier::opaque]
pub open spec fn colon_desc(t: Seq<char>, p: Seq<char>) -> Option<Seq<char>> {
    if has_prefix(t, p) && t.contains(':') {
        match find_seq(t, seq![':']) {
            Some(colon) => desc_from(t, colon + 1),
            None => None,
        }
    } else {
        None
    }
}

/// The first description that a line of `lines` gives for `p`, reading
/// `` * `name` - `` lines (`by_backtick`) or `name:` lines.
pub open spec fn first_desc(lines: Seq<Seq<char>>, p: Seq<char>, by_backtick: bool) -> Option<Seq<char>>
    decreases lines.len(),
{
    if lines.len() == 0 {
        None
    } else {
        let t = trim(lines[0]);
        let d = if by_backtick {
            backtick_desc(t, p)
        } else {
            colon_desc(t, p)
        };
        match d {
            Some(x) => Some(x),
            None => first_desc(lines.drop_first(), p, by_backtick),
        }
    }
}

/// The description of the parameter `p` in the doc comment `doc`: from the
/// first `` * `p` - description `` line, else from the first
/// `p: description` line.
pub open spec fn param_description(doc: Seq<char>, p: Seq<char>) -> Option<Seq<char>> {
    let lines = lines_of(doc);
    match first_desc(lines, p, true) {
        Some(d) => Some(d),
        None => first_desc(lines, p, false),
    }
}

/// A trimmed doc line that can serve as the method description: not empty,
/// not a heading or list item, and not about arguments, parameters or
/// anything with a colon.
#[verifier::opaque]
pub open spec fn is_summary_line(t: Seq<char>) -> bool {
    let lc = lowercase_of(t);
    t.len() > 0 && !starts_with_char(t, '#') && !starts_with_char(t, '*') && !contains_seq(lc, "arguments"@)
        && !contains_seq(lc, "params"@) && !contains_seq(lc, ":"@)
}

/// The first trimmed line of `lines` that can serve as a description.
pub open spec fn first_summary(lines: Seq<Seq<char>>) -> Option<Seq<char>>
    decreases lines.len(),
{
    if lines.len() == 0 {
        None
    } else if is_summary_line(trim(lines[0])) {
        Some(trim(lines[0]))
    } else {
        first_summary(lines.drop_first())
    }
}

/// The short (`-c`) and long (`--name`) flags of a parameter called `name`;
/// `-_` when the name is empty.
pub open spec fn param_flags(name: Seq<char>) -> (Seq<char>, Seq<char>) {
    let c = if name.len() > 0 {
        name[0]
    } else {
        '_'
    };
    (seq!['-', c], seq!['-', '-'] + name)
}

/// `s` without leading and trailing white space.
pub fn trim_chars(s: &[char]) -> (r: Vec<char>)
    ensures
        r@ == trim(s@),
{
    reveal(trim);
    let n = s.len();
    let mut a: usize = 0;
    assert(s@.skip(0) == s@);
    while a < n && is_space_char(s[a])
        invariant
            n == s@.len(),
            a <= n,
            trim_start(s@) == trim_start(s@.skip(a as int)),
        decreases n - a,
    {
        assert(s@.skip(a as int).drop_first() == s@.skip(a + 1));
        a = a + 1;
    }
    let ghost front = s@.skip(a as int);
    assert(trim_start(front) == front);
    let mut b: usize = n;
    while b > a && is_space_char(s[b - 1])
        invariant
            n == s@.len(),
            a <= b <= n,
            trim_end(front) == trim_end(s@.subrange(a as int, b as int)),
        decreases b - a,
    {
        assert(s@.subrange(a as int, b as int).drop_last() == s@.subrange(a as int, b - 1));
        b = b - 1;
    }
    let ghost mid = s@.subrange(a as int, b as int);
    assert(trim_end(mid) == mid);
    assert(front == s@.subrange(a as int, n as int));
    let mut out: Vec<char> = Vec::new();
    for i in a..b
        invariant
            a <= b <= n,
            n == s@.len(),
            out@ == s@.subrange(a as int, i as int),
    {
        out.push(s[i]);
        assert(out@ =~= s@.subrange(a as int, i + 1));
    }
    out
}

/// Whether `c` is white space.
pub fn is_space_char(c: char) -> (r: bool)
    ensures
        r == is_space(c),
{
    reveal(is_space);
    ('\u{9}' <= c && c <= '\u{d}') || c == ' ' || c == '\u{85}' || c == '\u{a0}' || c == '\u{1680}'
        || ('\u{2000}' <= c && c <= '\u{200a}') || c == '\u{2028}' || c == '\u{2029}' || c == '\u{202f}'
        || c == '\u{205f}' || c == '\u{3000}'
}

/// The lines of `s`.
pub fn text_lines(s: &str) -> (r: Vec<Vec<char>>)
    ensures
        line_views(r@) == lines_of(s@),
{
    let v = chars_of(s);
    let parts = split_chars(v.as_slice(), '\n');
    let ghost p = split_on(s@, '\n');
    assert(strings_view(parts@) == p);
    let n = parts.len();
    assert(n > 0) by {
        assert(p.len() == strings_view(parts@).len());
        crate::text::lemma_split_nonempty(s@, '\n');
    }
    let mut out: Vec<Vec<char>> = Vec::new();
    for i in 0..n - 1
        invariant
            n == parts@.len(),
            n > 0,
            strings_view(parts@) == p,
            line_views(out@) == strip_all(p.drop_last().take(i as int)),
    {
        let ghost before = line_views(out@);
        let line = chars_of(parts[i].as_str());
        assert(line@ == p[i as int]);
        let stripped = if line.len() > 0 && line[line.len() - 1] == '\r' {
            drop_last_char(line.as_slice())
        } else {
            line
        };
        out.push(stripped);
        assert(line_views(out@) =~= before.push(strip_cr(p[i as int])));
        assert(strip_all(p.drop_last().take(i + 1)) =~= strip_all(p.drop_last().take(i as int)).push(strip_cr(p[i as int])));
    }
    assert(p.drop_last().take(n - 1) == p.drop_last());
    let last = chars_of(parts[n - 1].as_str());
    assert(last@ == p.last());
    if last.len() > 0 {
        let ghost before = line_views(out@);
        out.push(last);
        assert(line_views(out@) =~= before.push(p.last()));
    }
    out
}

/// `s` without its last character.
fn drop_last_char(s: &[char]) -> (r: Vec<char>)
    requires
        s@.len() > 0,
    ensures
        r@ == s@.drop_last(),
{
    let mut out: Vec<char> = Vec::new();
    let n = s.len() - 1;
    for i in 0..n
        invariant
            n == s@.len() - 1,
            out@ == s@.subrange(0, i as int),
    {
        out.push(s[i]);
        assert(out@ =~= s@.subrange(0, i + 1));
    }
    out
}

/// `s` from position `from` on.
fn skip_chars(s: &[char], from: usize) -> (r: Vec<char>)
    requires
        from <= s@.len(),
    ensures
        r@ == s@.skip(from as int),
{
    let mut out: Vec<char> = Vec::new();
    let n = s.len();
    for i in from..n
        invariant
            from <= n,
            n == s@.len(),
            out@ == s@.subrange(from as int, i as int),
    {
        out.push(s[i]);
        assert(out@ =~= s@.subrange(from as int, i + 1));
    }
    out
}

/// The non-empty trimmed text of `t` from position `k` on.
pub open spec fn desc_from(t: Seq<char>, k: int) -> Option<Seq<char>> {
    let d = trim(t.skip(k));
    if d.len() > 0 {
        Some(d)
    } else {
        None
    }
}

fn desc_from_of(t: &[char], k: usize) -> (r: Option<Vec<char>>)
    requires
        k <= t@.len(),
    ensures
        match r {
            Some(d) => desc_from(t@, k as int) == Some(d@),
            None => desc_from(t@, k as int) is None,
        },
{
    let tail = skip_chars(t, k);
    let desc = trim_chars(tail.as_slice());
    if desc.len() > 0 {
        Some(desc)
    } else {
        None
    }
}

/// `` `p` ``: the parameter name between backticks.
fn quoted_name(p: &[char]) -> (r: Vec<char>)
    ensures
        r@ == seq!['`'] + p@ + seq!['`'],
{
    let mut quoted: Vec<char> = Vec::new();
    quoted.push('`');
    let mut i: usize = 0;
    while i < p.len()
        invariant
            i <= p@.len(),
            quoted@ == seq!['`'] + p@.subrange(0, i as int),
        decreases p@.len() - i,
    {
        quoted.push(p[i]);
        assert(quoted@ =~= seq!['`'] + p@.subrange(0, i + 1));
        i = i + 1;
    }
    quoted.push('`');
    assert(quoted@ =~= seq!['`'] + p@ + seq!['`']);
    quoted
}

/// The description a `` * `p` - description `` line `t` gives.
fn backtick_desc_of(t: &[char], p: &[char]) -> (r: Option<Vec<char>>)
    ensures
        match r {
            Some(d) => backtick_desc(t@, p@) == Some(d@),
            None => backtick_desc(t@, p@) is None,
        },
{
    reveal(backtick_desc);
    if !(chars_contain(t, p) && chars_contain_char(t, '`') && chars_contain_char(t, '-')) {
        return None;
    }
    let quoted = quoted_name(p);
    match chars_find(t, quoted.as_slice()) {
        Some(start) => {
            let rest = skip_chars(t, start);
            let dash_pat = [' ', '-', ' '];
            assert(dash_pat@ =~= seq![' ', '-', ' ']);
            match chars_find(rest.as_slice(), dash_pat.as_slice()) {
                Some(dash) => {
                    assert(t@.skip(start as int).skip(dash + 3) == t@.skip(start + dash + 3));
                    let lim = rest.len();
                    assert(dash + 3 <= lim);
                    let r = desc_from_of(rest.as_slice(), dash + 3);
                    assert(desc_from(rest@, dash + 3) == desc_from(t@, start + dash + 3));
                    r
                },
                None => None,
            }
        },
        None => None,
    }
}

/// The description a `p: description` line `t` gives.
fn colon_desc_of(t: &[char], p: &[char]) -> (r: Option<Vec<char>>)
    ensures
        match r {
            Some(d) => colon_desc(t@, p@) == Some(d@),
            None => colon_desc(t@, p@) is None,
        },
{
    reveal(colon_desc);
    if !(chars_have_prefix(t, p) && chars_contain_char(t, ':')) {
        return None;
    }
    let colon = [':'];
    assert(colon@ =~= seq![':']);
    match chars_find(t, colon.as_slice()) {
        Some(c) => {
            let lim = t.len();
            assert(c + 1 <= lim);
            desc_from_of(t, c + 1)
        },
        None => None,
    }
}

/// Whether the trimmed line `t` is a heading that mentions arguments.
fn is_arguments_heading(t: &[char], lowered: &[char]) -> (r: bool)
    ensures
        r == (contains_seq(lowered@, "arguments"@) && starts_with_char(t@, '#')),
{
    let word = chars_of("arguments");
    chars_contain(lowered, word.as_slice()) && t.len() > 0 && t[0] == '#'
}

proof fn lemma_first_desc_none(lines: Seq<Seq<char>>, p: Seq<char>, by_backtick: bool, i: int)
    requires
        first_desc(lines, p, by_backtick) is None,
        0 <= i < lines.len(),
    ensures
        by_backtick ==> backtick_desc(trim(lines[i]), p) is None,
    decreases i,
{
    if i > 0 {
        lemma_first_desc_none(lines.drop_first(), p, by_backtick, i - 1);
        assert(lines.drop_first()[i - 1] == lines[i]);
    }
}

/// The description of the parameter `param_name` in the doc comment
/// `doc_comments`: from a `` * `name` - description `` line, else from a
/// `name: description` line.  (Lines of an `# Arguments` section are read
/// the same way as the first kind, so they add nothing further.)
pub fn extract_param_description(doc_comments: &str, param_name: &str) -> (r: Option<String>)
    ensures
        match r {
            Some(d) => param_description(doc_comments@, param_name@) == Some(d@),
            None => param_description(doc_comments@, param_name@) is None,
        },
{
    let lines = text_lines(doc_comments);
    let ghost ls = line_views(lines@);
    let p = chars_of(param_name);
    let n = lines.len();
    assert(ls.skip(0) == ls);
    for i in 0..n
        invariant
            n == lines@.len(),
            ls == line_views(lines@),
            ls == lines_of(doc_comments@),
            p@ == param_name@,
            first_desc(ls, p@, true) == first_desc(ls.skip(i as int), p@, true),
    {
        assert(ls.skip(i as int).drop_first() == ls.skip(i + 1));
        assert(ls.skip(i as int)[0] == lines@[i as int]@);
        let trimmed = trim_chars(lines[i].as_slice());
        if let Some(desc) = backtick_desc_of(trimmed.as_slice(), p.as_slice()) {
            assert(first_desc(ls.skip(i as int), p@, true) == Some(desc@));
            return Some(string_of(desc.as_slice()));
        }
    }
    assert(ls.skip(n as int).len() == 0);
    for i in 0..n
        invariant
            n == lines@.len(),
            ls == line_views(lines@),
            ls == lines_of(doc_comments@),
            p@ == param_name@,
            first_desc(ls, p@, true) is None,
            first_desc(ls, p@, false) == first_desc(ls.skip(i as int), p@, false),
    {
        assert(ls.skip(i as int).drop_first() == ls.skip(i + 1));
        assert(ls.skip(i as int)[0] == lines@[i as int]@);
        let trimmed = trim_chars(lines[i].as_slice());
        if let Some(desc) = colon_desc_of(trimmed.as_slice(), p.as_slice()) {
            assert(first_desc(ls.skip(i as int), p@, false) == Some(desc@));
            return Some(string_of(desc.as_slice()));
        }
    }
    assert(ls.skip(n as int).len() == 0);
    let mut in_arguments_section = false;
    for i in 0..n
        invariant
            n == lines@.len(),
            ls == line_views(lines@),
            ls == lines_of(doc_comments@),
            p@ == param_name@,
            first_desc(ls, p@, true) is None,
            first_desc(ls, p@, false) is None,
    {
        let trimmed = trim_chars(lines[i].as_slice());
        let lowered_string = to_lowercase(string_of(trimmed.as_slice()).as_str());
        let lowered = chars_of(lowered_string.as_str());
        if is_arguments_heading(trimmed.as_slice(), lowered.as_slice()) {
            in_arguments_section = true;
        } else {
            let word = chars_of("arguments");
            if trimmed.len() > 0 && trimmed[0] == '#' && !chars_contain(lowered.as_slice(), word.as_slice()) {
                in_arguments_section = false;
            }
            if in_arguments_section {
                proof {
                    lemma_first_desc_none(ls, p@, true, i as int);
                    assert(ls[i as int] == lines@[i as int]@);
                }
                if let Some(desc) = backtick_desc_of(trimmed.as_slice(), p.as_slice()) {
                    return Some(string_of(desc.as_slice()));
                }
            }
        }
    }
    None
}

/// Whether the trimmed line `t` can serve as the method description.
fn is_summary_line_of(t: &[char]) -> (r: bool)
    ensures
        r == is_summary_line(t@),
{
    reveal(is_summary_line);
    if t.len() == 0 || t[0] == '#' || t[0] == '*' {
        return false;
    }
    let lowered_string = to_lowercase(string_of(t).as_str());
    let lc = chars_of(lowered_string.as_str());
    let w1 = chars_of("arguments");
    let w2 = chars_of("params");
    let w3 = chars_of(":");
    !chars_contain(lc.as_slice(), w1.as_slice()) && !chars_contain(lc.as_slice(), w2.as_slice())
        && !chars_contain(lc.as_slice(), w3.as_slice())
}

/// The method description in the doc comment `doc_comments`: its first
/// trimmed line that is not empty, not a heading or list item, and not about
/// arguments, parameters or anything with a colon.
pub fn extract_func_description(doc_comments: &str) -> (r: Option<String>)
    ensures
        match r {
            Some(d) => first_summary(lines_of(doc_comments@)) == Some(d@),
            None => first_summary(lines_of(doc_comments@)) is None,
        },
{
    let lines = text_lines(doc_comments);
    let ghost ls = line_views(lines@);
    let n = lines.len();
    assert(ls.skip(0) == ls);
    for i in 0..n
        invariant
            n == lines@.len(),
            ls == line_views(lines@),
            ls == lines_of(doc_comments@),
            first_summary(ls) == first_summary(ls.skip(i as int)),
    {
        assert(ls.skip(i as int).drop_first() == ls.skip(i + 1));
        assert(ls.skip(i as int)[0] == lines@[i as int]@);
        let trimmed = trim_chars(lines[i].as_slice());
        if is_summary_line_of(trimmed.as_slice()) {
            assert(first_summary(ls.skip(i as int)) == Some(trimmed@));
            return Some(string_of(trimmed.as_slice()));
        }
    }
    assert(ls.skip(n as int).len() == 0);
    None
}

/// The doc comment made of the doc attribute texts `docs`, one per line.
pub fn extract_doc_comments(docs: &[String]) -> (r: String)
    ensures
        r@ == join_with(strings_view(docs@), '\n'),
{
    join_strings(docs, '\n')
}

/// Whether the attribute text `attr` asks for a default method.
pub fn attr_requests_default(attr: &str) -> (r: bool)
    ensures
        r == contains_seq(attr@, "default"@),
{
    let a = chars_of(attr);
    let w = chars_of("default");
    chars_contain(a.as_slice(), w.as_slice())
}

/// The short and long flags under which the generated entry wrapper looks up
/// the parameter called `name`.
pub fn param_flag_names(name: &str) -> (r: (String, String))
    ensures
        r.0@ == param_flags(name@).0,
        r.1@ == param_flags(name@).1,
{
    let v = chars_of(name);
    let c = if v.len() > 0 {
        v[0]
    } else {
        '_'
    };
    let mut short = String::new();
    push_char(&mut short, '-');
    push_char(&mut short, c);
    let mut long = String::new();
    push_char(&mut long, '-');
    push_char(&mut long, '-');
    push_chars(&mut long, v.as_slice());
    assert(short@ =~= param_flags(name@).0);
    assert(long@ =~= param_flags(name@).1);
    (short, long)
}

} // verus!
