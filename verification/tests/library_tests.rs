use appentry::{
    appentry_help_text, attr_requests_default, dispatch_parts_from_methods, extract_doc_comments,
    extract_func_description, extract_param_description, get_arg_from_name, get_vec_arg_from_name,
    help_is_renderable, is_vec_string_arg, method_matches_flag, selection_is_ambiguous, param_flag_names, parse_bare_method_args,
    parse_flag_method_args, parse_method_args, program_name, AppEntryError, AppEntryMethod,
    ArgInfo, ArgMap, ArgValue, DispatchPlan, FunctionInfo, VecFunctionInfoExt,
};

type Info = FunctionInfo<u8, u8>;

static XY_ARGS: [ArgInfo; 2] = [
    ArgInfo { name: "x", ty_name: "i32", desc: Some("The first number to add") },
    ArgInfo { name: "y", ty_name: "i32", desc: None },
];
static RUN_ARGS: [ArgInfo; 2] = [
    ArgInfo { name: "command", ty_name: "String", desc: None },
    ArgInfo { name: "args", ty_name: "Vec<String>", desc: None },
];
static BAD_VARARGS: [ArgInfo; 2] = [
    ArgInfo { name: "args", ty_name: "std::vec::Vec<String>", desc: None },
    ArgInfo { name: "last", ty_name: "String", desc: None },
];
static ADD_FLAGS: Info = FunctionInfo {
    name: "add",
    is_default: true,
    is_bare: false,
    desc: Some("Add two numbers"),
    args: &XY_ARGS,
    method: AppEntryMethod::Sync(0),
};
static VERSION: Info = FunctionInfo {
    name: "version",
    is_default: false,
    is_bare: false,
    desc: Some("Print the application version"),
    args: &[],
    method: AppEntryMethod::Async(1),
};
static RUN: Info = FunctionInfo {
    name: "run",
    is_default: false,
    is_bare: true,
    desc: None,
    args: &RUN_ARGS,
    method: AppEntryMethod::Sync(2),
};
static BAD: Info = FunctionInfo {
    name: "bad",
    is_default: false,
    is_bare: true,
    desc: None,
    args: &BAD_VARARGS,
    method: AppEntryMethod::Sync(3),
};
static DEFAULT_ONE: Info = FunctionInfo {
    name: "one",
    is_default: true,
    is_bare: true,
    desc: None,
    args: &[],
    method: AppEntryMethod::Sync(4),
};

fn words(ws: &[&str]) -> Vec<String> {
    ws.iter().map(|w| w.to_string()).collect()
}

fn map_of(pairs: &[(&str, Option<&str>)]) -> ArgMap {
    let mut m = ArgMap::new();
    for (k, v) in pairs {
        m.insert(k.to_string(), v.map(|s| s.to_string()));
    }
    m
}

#[test]
fn arg_map_insert_get_remove() {
    let mut m = ArgMap::new();
    assert_eq!(m.get("--x"), None);
    m.insert("--x".to_string(), Some("1".to_string()));
    m.insert("--y".to_string(), None);
    m.insert("--x".to_string(), Some("2".to_string()));
    assert_eq!(m.get("--x"), Some(&Some("2".to_string())));
    assert_eq!(m.get("--y"), Some(&None));
    assert!(m.contains_key("--y"));
    assert_eq!(m.remove("--y"), Some(None));
    assert_eq!(m.remove("--y"), None);
    assert!(!m.contains_key("--y"));
    let c = m.clone();
    assert_eq!(c.get("--x"), Some(&Some("2".to_string())));
}

#[test]
fn flag_args_pair_names_with_values() {
    let m = parse_flag_method_args(words(&["-x", "1", "--y", "2", "--verbose", "-z", "-3", "w"]));
    assert_eq!(m.get("-x"), Some(&Some("1".to_string())));
    assert_eq!(m.get("--y"), Some(&Some("2".to_string())));
    assert_eq!(m.get("--verbose"), None.or(Some(&None)));
    assert_eq!(m.get("-z"), Some(&None));
    assert_eq!(m.get("-3"), Some(&Some("w".to_string())));
    assert_eq!(m.get("1"), None);
}

#[test]
fn flag_args_later_occurrence_replaces_earlier() {
    let m = parse_flag_method_args(words(&["--x", "1", "--x"]));
    assert_eq!(m.get("--x"), Some(&None));
    let m = parse_flag_method_args(words(&[]));
    assert_eq!(m.get("--x"), None);
}

#[test]
fn bare_args_errors_carry_exact_messages() {
    let e = parse_bare_method_args(&RUN, words(&["a", "-b"])).unwrap_err();
    assert_eq!(e.message(), "bare method 'run' does not accept flag arguments");
    let e = parse_bare_method_args(&RUN, words(&[])).unwrap_err();
    assert!(matches!(e, AppEntryError::TooFewArguments { expected: 1, got: 0, .. }));
    assert_eq!(e.message(), "bare method 'run' expects at least 1 arguments, got 0");
    let e = parse_bare_method_args(&BAD, words(&["a"])).unwrap_err();
    assert_eq!(e.message(), "Vec<String> must be the last bare argument");
    let add = FunctionInfo { is_bare: true, ..ADD_FLAGS };
    let e = parse_bare_method_args(&add, words(&["1", "2", "3"])).unwrap_err();
    assert_eq!(e.message(), "bare method 'add' expects 2 arguments, got 3");
    assert_eq!(AppEntryError::MissingCommand.message(), "missing command");
    assert_eq!(
        AppEntryError::InvalidCommandForm { name: "--add".to_string() }.message(),
        "invalid command form: --add"
    );
    let big = AppEntryError::WrongArgumentCount { method: "m", expected: 1234567890, got: 10 };
    assert_eq!(big.message(), "bare method 'm' expects 1234567890 arguments, got 10");
}

#[test]
fn bare_vec_tail_may_be_empty_and_round_trips() {
    let m = parse_bare_method_args(&RUN, words(&["show"])).unwrap();
    assert_eq!(m.get("--args"), Some(&Some(String::new())));
    assert_eq!(get_vec_arg_from_name(&mut m.clone(), &["--args"]), Vec::<String>::new());

    let tail = ["a b", "", "c"];
    let mut all = vec!["cmd"];
    all.extend_from_slice(&tail);
    let mut m = parse_bare_method_args(&RUN, words(&all)).unwrap();
    assert_eq!(m.get("--args"), Some(&Some("a b\0\0c".to_string())));
    assert_eq!(get_vec_arg_from_name(&mut m, &["--args"]), words(&tail));
    assert_eq!(m.get("--args"), None);
}

#[test]
fn vec_arg_reader_stops_at_first_name_with_value() {
    let mut m = map_of(&[("-a", None), ("--args", Some("x\0y")), ("--more", Some("z"))]);
    assert_eq!(get_vec_arg_from_name(&mut m, &["-a", "--args", "--more"]), words(&["x", "y"]));
    assert!(!m.contains_key("-a"));
    assert!(!m.contains_key("--args"));
    assert!(m.contains_key("--more"));
    assert_eq!(get_vec_arg_from_name(&mut m, &["--none"]), Vec::<String>::new());
}

#[test]
fn typed_reader_reads_and_removes_every_name() {
    let mut m = map_of(&[("-x", Some("1")), ("--x", Some("7")), ("--y", Some("2"))]);
    let x: i32 = get_arg_from_name(&mut m, &["-x", "--x"]);
    assert_eq!(x, 7);
    assert!(!m.contains_key("-x") && !m.contains_key("--x"));
    assert!(m.contains_key("--y"));
    let missing: i32 = get_arg_from_name(&mut m, &["-q", "--q"]);
    assert_eq!(missing, 0);
    let mut m = map_of(&[("--n", Some("abc"))]);
    let n: u64 = get_arg_from_name(&mut m, &["--n"]);
    assert_eq!(n, 0);
    let mut m = map_of(&[("--s", Some("hello"))]);
    let s: String = get_arg_from_name(&mut m, &["--s"]);
    assert_eq!(s, "hello");
}

#[test]
fn switches_turn_on_when_named() {
    let mut m = map_of(&[("-v", None)]);
    let v: bool = get_arg_from_name(&mut m, &["-v", "--verbose"]);
    assert!(v);
    let mut m = map_of(&[("--verbose", Some("false"))]);
    let v: bool = get_arg_from_name(&mut m, &["-v", "--verbose"]);
    assert!(!v);
    let mut m = map_of(&[("--verbose", Some("yes"))]);
    let v: bool = get_arg_from_name(&mut m, &["-v", "--verbose"]);
    assert!(v);
    let mut m = map_of(&[]);
    let v: bool = get_arg_from_name(&mut m, &["-v", "--verbose"]);
    assert!(!v);
    let mut m = map_of(&[("-v", Some("true")), ("--verbose", None)]);
    let v: bool = get_arg_from_name(&mut m, &["-v", "--verbose"]);
    assert!(v);
    let mut m = map_of(&[("--n", None)]);
    let n: i32 = get_arg_from_name(&mut m, &["--n"]);
    assert_eq!(n, 0);
}

const NUMBER_TEXTS: &[&str] = &[
    "127", "128", "-128", "-129", "255", "256", "32767", "32768", "-32768", "-32769", "65535",
    "65536", "+255", "-255",
    "", "+", "-", "0", "-0", "+0", "12", "-12", "+12", "007", "2147483647", "2147483648",
    "-2147483648", "-2147483649", "1a", " 1", "1 ", "99999999999999999999999",
    "18446744073709551615", "18446744073709551616", "-1", "\u{663}", "+-1", "--1",
    "9223372036854775807", "9223372036854775808", "-9223372036854775808", "-9223372036854775809",
    "4294967295", "4294967296",
];

#[test]
fn integers_read_as_std_parses_them() {
    for &s in NUMBER_TEXTS {
        assert_eq!(<i8 as ArgValue>::parse_arg(s), s.parse::<i8>().ok(), "i8 {s:?}");
        assert_eq!(<i16 as ArgValue>::parse_arg(s), s.parse::<i16>().ok(), "i16 {s:?}");
        assert_eq!(<u8 as ArgValue>::parse_arg(s), s.parse::<u8>().ok(), "u8 {s:?}");
        assert_eq!(<u16 as ArgValue>::parse_arg(s), s.parse::<u16>().ok(), "u16 {s:?}");
        assert_eq!(<isize as ArgValue>::parse_arg(s), s.parse::<isize>().ok(), "isize {s:?}");
        assert_eq!(<i32 as ArgValue>::parse_arg(s), s.parse::<i32>().ok(), "i32 {s:?}");
        assert_eq!(<i64 as ArgValue>::parse_arg(s), s.parse::<i64>().ok(), "i64 {s:?}");
        assert_eq!(<u32 as ArgValue>::parse_arg(s), s.parse::<u32>().ok(), "u32 {s:?}");
        assert_eq!(<u64 as ArgValue>::parse_arg(s), s.parse::<u64>().ok(), "u64 {s:?}");
        assert_eq!(<usize as ArgValue>::parse_arg(s), s.parse::<usize>().ok(), "usize {s:?}");
        assert_eq!(<bool as ArgValue>::parse_arg(s), s.parse::<bool>().ok(), "bool {s:?}");
        assert_eq!(<i128 as ArgValue>::parse_arg(s), s.parse::<i128>().ok(), "i128 {s:?}");
        assert_eq!(<u128 as ArgValue>::parse_arg(s), s.parse::<u128>().ok(), "u128 {s:?}");
        assert_eq!(<char as ArgValue>::parse_arg(s), s.parse::<char>().ok(), "char {s:?}");
    }
    for s in [
        "170141183460469231731687303715884105727",
        "170141183460469231731687303715884105728",
        "-170141183460469231731687303715884105728",
        "-170141183460469231731687303715884105729",
        "340282366920938463463374607431768211455",
        "340282366920938463463374607431768211456",
        "3402823669209384634633746074317682114550",
    ] {
        assert_eq!(<i128 as ArgValue>::parse_arg(s), s.parse::<i128>().ok(), "i128 {s:?}");
        assert_eq!(<u128 as ArgValue>::parse_arg(s), s.parse::<u128>().ok(), "u128 {s:?}");
    }
    for s in ["x", "\u{1F600}", "ab", "", "e\u{301}"] {
        assert_eq!(<char as ArgValue>::parse_arg(s), s.parse::<char>().ok(), "char {s:?}");
    }
    for s in ["true", "false", "True", "1"] {
        assert_eq!(<bool as ArgValue>::parse_arg(s), s.parse::<bool>().ok(), "bool {s:?}");
    }
}

#[test]
fn vec_string_types_ignore_spaces() {
    let arg = |t: &'static str| ArgInfo::new("a", t);
    assert!(is_vec_string_arg(&arg("Vec<String>")));
    assert!(is_vec_string_arg(&arg("Vec < String >")));
    assert!(is_vec_string_arg(&arg("std :: vec :: Vec < String >")));
    assert!(is_vec_string_arg(&arg(":: std :: vec :: Vec < String >")));
    assert!(!is_vec_string_arg(&arg("Vec<str>")));
    assert!(!is_vec_string_arg(&arg("alloc::vec::Vec<String>")));
    let d = ArgInfo::new_with_desc("b", "u8", Some("d"));
    assert_eq!((d.name, d.ty_name, d.desc), ("b", "u8", Some("d")));
}

#[test]
fn flag_forms() {
    assert!(method_matches_flag(&ADD_FLAGS, false, "--add"));
    assert!(!method_matches_flag(&ADD_FLAGS, false, "-a"));
    assert!(method_matches_flag(&ADD_FLAGS, true, "-a"));
    assert!(!method_matches_flag(&ADD_FLAGS, true, "-ad"));
    assert!(!method_matches_flag(&ADD_FLAGS, true, "add"));
    assert!(!method_matches_flag(&ADD_FLAGS, true, "--a"));
}

#[test]
fn missing_command_without_default() {
    let methods = vec![&VERSION, &RUN];
    let mut args = words(&[]);
    let e = match methods.get_method(true, &mut args) {
        Err(e) => e,
        Ok(_) => panic!("expected an error"),
    };
    assert!(matches!(e, AppEntryError::MissingCommand));
    let mut args = words(&["x"]);
    assert!(matches!(methods.get_method(true, &mut args), Err(AppEntryError::MissingCommand)));
    assert_eq!(args, words(&["x"]));
    let mut args = words(&["--run"]);
    let e = match methods.get_method(true, &mut args) {
        Err(e) => e,
        Ok(_) => panic!("expected an error"),
    };
    assert_eq!(e.message(), "invalid command form: --run");
}

#[test]
fn default_method_runs_when_nothing_named() {
    let methods = vec![&VERSION, &ADD_FLAGS];
    let mut args = words(&["-x", "1"]);
    assert_eq!(methods.get_method(false, &mut args).unwrap().name, "add");
    assert_eq!(args, words(&["-x", "1"]));
    let mut args = words(&["-v"]);
    assert_eq!(methods.get_method(true, &mut args).unwrap().name, "version");
    assert!(args.is_empty());
}

#[test]
fn help_text_lists_methods_and_aligned_options() {
    let methods = vec![&ADD_FLAGS, &RUN, &VERSION];
    let text = appentry_help_text("/usr/local/bin/myapp", &methods, true);
    assert_eq!(
        text,
        "Desc:  Add two numbers\n\
         Usage: myapp [-a/--add] [Options]\n\
         Options:\n    -x, --x <i32> The first number to add\n    -y, --y <i32>\n\n\
         Usage: myapp run <command:string> <args...>\n\n\
         Desc:  Print the application version\n\
         Usage: myapp -v/--version\n\n"
    );
    let methods = vec![&ADD_FLAGS];
    let text = appentry_help_text("C:\\bin\\myapp.exe", &methods, false);
    assert_eq!(
        text,
        "Desc:  Add two numbers\n\
         Usage: myapp.exe [Options]\n\
         Options:\n    --x <i32> The first number to add\n    --y <i32>\n\n"
    );
    assert_eq!(program_name("a/b\\c"), "c");
    assert_eq!(program_name("plain"), "plain");
    assert_eq!(program_name("dir/"), "");
}

#[test]
fn dispatch_plans() {
    let methods = vec![&ADD_FLAGS, &RUN, &VERSION];
    assert!(matches!(
        dispatch_parts_from_methods(true, words(&["--help", "x"]), &methods),
        DispatchPlan::ShowHelp
    ));
    match dispatch_parts_from_methods(true, words(&["run", "a", "b"]), &methods) {
        DispatchPlan::Run { method, args } => {
            assert_eq!(method.name, "run");
            assert_eq!(args.get("--command"), Some(&Some("a".to_string())));
            assert_eq!(args.get("--args"), Some(&Some("b".to_string())));
        }
        _ => panic!("expected run"),
    }
    match dispatch_parts_from_methods(true, words(&["-x", "1", "-y", "2"]), &methods) {
        DispatchPlan::Run { method, mut args } => {
            assert_eq!(method.name, "add");
            let x: i32 = get_arg_from_name(&mut args, &["-x", "--x"]);
            let y: i32 = get_arg_from_name(&mut args, &["-y", "--y"]);
            assert_eq!(x + y, 3);
        }
        _ => panic!("expected run"),
    }
    match dispatch_parts_from_methods(true, words(&["run", "-a"]), &methods) {
        DispatchPlan::Refuse { error } => {
            assert_eq!(error.message(), "bare method 'run' does not accept flag arguments");
        }
        _ => panic!("expected refusal"),
    }
    let methods = vec![&RUN];
    match dispatch_parts_from_methods(false, words(&["--run"]), &methods) {
        DispatchPlan::Refuse { error } => assert_eq!(error.message(), "invalid command form: --run"),
        _ => panic!("expected refusal"),
    }
}

#[test]
fn method_args_by_form() {
    let m = parse_method_args(&ADD_FLAGS, words(&["--x", "5"])).unwrap();
    assert_eq!(m.get("--x"), Some(&Some("5".to_string())));
    let m = parse_method_args(&DEFAULT_ONE, words(&[])).unwrap();
    assert_eq!(m.get("--x"), None);
}

#[test]
fn bare_positional_read_back_through_flag_names() {
    let add = FunctionInfo { is_bare: true, ..ADD_FLAGS };
    let mut m = parse_bare_method_args(&add, words(&["3", "4"])).unwrap();
    let (sx, lx) = param_flag_names("x");
    let (sy, ly) = param_flag_names("y");
    let x: i32 = get_arg_from_name(&mut m, &[sx.as_str(), lx.as_str()]);
    let y: i32 = get_arg_from_name(&mut m, &[sy.as_str(), ly.as_str()]);
    assert_eq!((x, y), (3, 4));
    assert_eq!(m.get("--x"), None);
}

#[test]
fn doc_comment_descriptions() {
    let doc = extract_doc_comments(&[
        " Add two numbers".to_string(),
        "".to_string(),
        " # Arguments".to_string(),
        "".to_string(),
        " * `x` - The first number to add".to_string(),
        " * `y` -".to_string(),
        " z: the third".to_string(),
    ]);
    assert_eq!(
        doc,
        " Add two numbers\n\n # Arguments\n\n * `x` - The first number to add\n * `y` -\n z: the third"
    );
    assert_eq!(extract_func_description(&doc), Some("Add two numbers".to_string()));
    assert_eq!(extract_param_description(&doc, "x"), Some("The first number to add".to_string()));
    assert_eq!(extract_param_description(&doc, "y"), None);
    assert_eq!(extract_param_description(&doc, "z"), Some("the third".to_string()));
    assert_eq!(extract_param_description("\u{3000}w:\tx \r\n", "w"), Some("x".to_string()));
    assert_eq!(extract_func_description(" # Params\n * list\n Note: x\n"), None);
    assert_eq!(extract_func_description("  Lines\r\nmore"), Some("Lines".to_string()));
    assert_eq!(extract_func_description(""), None);
}

#[test]
fn entry_attribute_helpers() {
    assert!(attr_requests_default("default"));
    assert!(attr_requests_default("[\"-v\"], default"));
    assert!(!attr_requests_default("[\"-v\", \"--version\"]"));
    assert_eq!(param_flag_names("count"), ("-c".to_string(), "--count".to_string()));
    assert_eq!(param_flag_names(""), ("-_".to_string(), "--".to_string()));
}

static NAMELESS: Info = FunctionInfo {
    name: "",
    is_default: true,
    is_bare: false,
    desc: None,
    args: &[],
    method: AppEntryMethod::Sync(5),
};

#[test]
fn preconditions_of_dispatch_can_be_tested() {
    let two_defaults = vec![&ADD_FLAGS, &DEFAULT_ONE, &RUN];
    assert!(selection_is_ambiguous(&two_defaults, true, &words(&[])));
    assert!(selection_is_ambiguous(&two_defaults, true, &words(&["zzz"])));
    assert!(!selection_is_ambiguous(&two_defaults, true, &words(&["run"])));
    assert!(!selection_is_ambiguous(&two_defaults, true, &words(&["--run"])));
    assert!(!selection_is_ambiguous(&two_defaults, true, &words(&["-a"])));
    let one_default = vec![&ADD_FLAGS, &RUN];
    assert!(!selection_is_ambiguous(&one_default, true, &words(&[])));
    assert!(help_is_renderable(&one_default));
    assert!(!help_is_renderable(&vec![&NAMELESS]));
    assert!(help_is_renderable(&vec![&DEFAULT_ONE]));
}

static SHOUTY_ARGS: [ArgInfo; 2] = [
    ArgInfo { name: "Count", ty_name: "I32", desc: Some("How many") },
    ArgInfo { name: "Rest", ty_name: "Vec<String>", desc: None },
];
static SHOUTY_FLAGS: Info = FunctionInfo {
    name: "Go",
    is_default: false,
    is_bare: false,
    desc: None,
    args: &SHOUTY_ARGS,
    method: AppEntryMethod::Sync(6),
};
static SHOUTY_BARE: Info = FunctionInfo {
    name: "Go",
    is_default: true,
    is_bare: true,
    desc: None,
    args: &SHOUTY_ARGS,
    method: AppEntryMethod::Sync(7),
};

#[test]
fn help_lowercases_argument_names_and_types() {
    let methods = vec![&SHOUTY_FLAGS, &SHOUTY_BARE];
    let text = appentry_help_text("prog", &methods, true);
    assert_eq!(
        text,
        "Usage: prog -G/--Go [Options]\n\
         Options:\n    -C, --count <i32>        How many\n    -R, --rest <vec<string>>\n\n\
         Usage: prog [Go] <count:i32> <rest...>\n\n"
    );
}

#[test]
fn summary_line_ignores_case_of_arguments() {
    assert_eq!(extract_func_description(" ARGUMENTS are below\n Real summary"), Some("Real summary".to_string()));
    assert_eq!(extract_func_description(" PARAMS\n"), None);
}

#[test]
fn trimming_and_lines_agree_with_std() {
    let texts = [
        "", " ", "a", "  a b  ", "\t\n\u{b}\u{c}\r x \u{85}\u{a0}", "\u{1680}\u{2000}y\u{200a}\u{2028}\u{2029}\u{202f}\u{205f}\u{3000}",
        "\u{180e}z\u{180e}", "a\nb", "a\r\nb\r\n", "a\r", "\n\n", "x\r\r\ny", "\r\n",
    ];
    for t in texts {
        let chars: Vec<char> = t.chars().collect();
        let trimmed: String = appentry::docs::trim_chars(&chars).into_iter().collect();
        assert_eq!(trimmed, t.trim(), "trim {t:?}");
        let lines: Vec<String> =
            appentry::docs::text_lines(t).into_iter().map(|l| l.into_iter().collect()).collect();
        let expected: Vec<String> = t.lines().map(|l| l.to_string()).collect();
        assert_eq!(lines, expected, "lines {t:?}");
    }
}

#[test]
fn decimal_rendering() {
    for n in [0usize, 7, 10, 99, 100, 4096, usize::MAX] {
        let mut s = String::new();
        appentry::text::push_decimal(&mut s, n);
        assert_eq!(s, n.to_string());
    }
}

#[test]
fn constructors_keep_their_parts() {
    static ARGS: [ArgInfo; 1] = [ArgInfo { name: "n", ty_name: "u8", desc: None }];
    let a = ArgInfo::new("n", "u8");
    assert_eq!((a.name, a.ty_name, a.desc), ("n", "u8", None));
    let f: Info = FunctionInfo::new("go", true, false, Some("Go"), &ARGS, AppEntryMethod::Async(9));
    assert_eq!((f.name, f.is_default, f.is_bare, f.desc, f.args.len()), ("go", true, false, Some("Go"), 1));
    assert!(matches!(f.method, AppEntryMethod::Async(9)));
}

static README_ADD_ARGS: [ArgInfo; 2] = [
    ArgInfo { name: "x", ty_name: "i32", desc: Some("The first number to add") },
    ArgInfo { name: "y", ty_name: "i32", desc: None },
];
static README_ADD: Info = FunctionInfo {
    name: "add",
    is_default: false,
    is_bare: false,
    desc: Some("Add two numbers"),
    args: &README_ADD_ARGS,
    method: AppEntryMethod::Sync(10),
};
static README_VERSION: Info = FunctionInfo {
    name: "version",
    is_default: false,
    is_bare: false,
    desc: Some("Print the application version"),
    args: &[],
    method: AppEntryMethod::Sync(11),
};
static README_HELLO: Info = FunctionInfo {
    name: "add",
    is_default: false,
    is_bare: false,
    desc: None,
    args: &BARE_LIKE_XY,
    method: AppEntryMethod::Sync(12),
};
static BARE_LIKE_XY: [ArgInfo; 2] = [
    ArgInfo { name: "x", ty_name: "i32", desc: None },
    ArgInfo { name: "y", ty_name: "i32", desc: None },
];

#[test]
fn readme_help_for_several_methods() {
    let methods = vec![&README_ADD, &README_VERSION];
    assert_eq!(
        appentry_help_text("appentry.exe", &methods, true),
        "Desc:  Add two numbers\nUsage: appentry.exe -a/--add [Options]\nOptions:\n    -x, --x <i32> The first number to add\n    -y, --y <i32>\n\nDesc:  Print the application version\nUsage: appentry.exe -v/--version\n\n"
    );
    let mut args = words(&["--version"]);
    assert_eq!(methods.get_method(true, &mut args).unwrap().name, "version");
    let mut args = words(&["-a", "-x", "1"]);
    assert_eq!(methods.get_method(true, &mut args).unwrap().name, "add");
    assert_eq!(args, words(&["-x", "1"]));
}

#[test]
fn readme_hello_world_runs_the_sole_method() {
    let methods = vec![&README_HELLO];
    assert_eq!(
        appentry_help_text("appentry.exe", &methods, true),
        "Usage: appentry.exe [Options]\nOptions:\n    -x, --x <i32>\n    -y, --y <i32>\n\n"
    );
    match dispatch_parts_from_methods(true, words(&["-x", "1", "-y", "2"]), &methods) {
        DispatchPlan::Run { method, mut args } => {
            assert_eq!(method.name, "add");
            let x: i32 = get_arg_from_name(&mut args, &["-x", "--x"]);
            let y: i32 = get_arg_from_name(&mut args, &["-y", "--y"]);
            assert_eq!(x + y, 3);
        }
        _ => panic!("expected the sole method to run"),
    }
    let mut args = words(&[]);
    assert_eq!(methods.get_method(true, &mut args).unwrap().name, "add");
    let mut args = words(&["add", "-x", "1"]);
    let e = match methods.get_method(true, &mut args) {
        Err(e) => e,
        Ok(_) => panic!("expected an error"),
    };
    assert_eq!(e.message(), "invalid command form: add");
}
