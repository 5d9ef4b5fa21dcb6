use appentry::{
    get_vec_arg_from_name, parse_bare_method_args, AppEntryMethod, ArgInfo, ArgMap, FunctionInfo,
    VecFunctionInfoExt,
};

type SyncMethod = fn(&mut ArgMap) -> Result<(), String>;
type AsyncMethod = fn(&mut ArgMap) -> Result<(), String>;

fn noop(_: &mut ArgMap) -> Result<(), String> {
    Ok(())
}

static BARE_ARGS: [ArgInfo; 2] = [
    ArgInfo { name: "x", ty_name: "i32", desc: None },
    ArgInfo { name: "y", ty_name: "i32", desc: None },
];
static VARARGS_ARGS: [ArgInfo; 2] = [
    ArgInfo { name: "command", ty_name: "String", desc: None },
    ArgInfo { name: "args", ty_name: "Vec < String >", desc: None },
];
static BARE_ADD: FunctionInfo<SyncMethod, AsyncMethod> = FunctionInfo {
    name: "add",
    is_default: false,
    is_bare: true,
    desc: None,
    args: &BARE_ARGS,
    method: AppEntryMethod::Sync(noop),
};
static FLAG_ADD: FunctionInfo<SyncMethod, AsyncMethod> = FunctionInfo {
    name: "add",
    is_default: false,
    is_bare: false,
    desc: None,
    args: &BARE_ARGS,
    method: AppEntryMethod::Sync(noop),
};
static DEFAULT: FunctionInfo<SyncMethod, AsyncMethod> = FunctionInfo {
    name: "default",
    is_default: true,
    is_bare: true,
    desc: None,
    args: &[],
    method: AppEntryMethod::Sync(noop),
};
static VARARGS: FunctionInfo<SyncMethod, AsyncMethod> = FunctionInfo {
    name: "run",
    is_default: false,
    is_bare: true,
    desc: None,
    args: &VARARGS_ARGS,
    method: AppEntryMethod::Sync(noop),
};

#[test]
fn parse_bare_method_args_maps_positionals_to_long_names() {
    let args = parse_bare_method_args(&BARE_ADD, vec!["1".to_string(), "2".to_string()]).unwrap();

    assert_eq!(args.get("--x"), Some(&Some("1".to_string())));
    assert_eq!(args.get("--y"), Some(&Some("2".to_string())));
}

#[test]
fn parse_bare_method_args_rejects_flags_and_wrong_counts() {
    assert!(parse_bare_method_args(&BARE_ADD, vec!["-x".to_string(), "1".to_string()]).is_err());
    assert!(parse_bare_method_args(&BARE_ADD, vec!["1".to_string()]).is_err());
    assert!(
        parse_bare_method_args(&BARE_ADD, vec!["1".to_string(), "2".to_string(), "3".to_string()])
            .is_err()
    );
}

#[test]
fn parse_bare_method_args_captures_vec_string_tail() {
    let args = parse_bare_method_args(
        &VARARGS,
        vec!["show".to_string(), "gzgy".to_string(), "1~2".to_string()],
    )
    .unwrap();

    assert_eq!(args.get("--command"), Some(&Some("show".to_string())));
    assert_eq!(
        get_vec_arg_from_name(&mut args.clone(), &["--args"]),
        vec!["gzgy".to_string(), "1~2".to_string()]
    );
}

#[test]
fn get_method_matches_bare_and_flag_forms_by_method_mode() {
    let methods = vec![&BARE_ADD, &FLAG_ADD];

    let mut args = vec!["add".to_string(), "1".to_string(), "2".to_string()];
    assert_eq!(methods.get_method(true, &mut args).unwrap().name, "add");
    assert_eq!(args, vec!["1".to_string(), "2".to_string()]);

    let mut args = vec!["--add".to_string(), "-x".to_string(), "1".to_string()];
    assert_eq!(methods.get_method(true, &mut args).unwrap().name, "add");
    assert_eq!(args, vec!["-x".to_string(), "1".to_string()]);
}

#[test]
fn get_method_rejects_wrong_form_instead_of_falling_back_to_default() {
    let bare_methods = vec![&BARE_ADD, &DEFAULT];
    let mut args = vec!["--add".to_string(), "1".to_string(), "2".to_string()];
    assert!(bare_methods.get_method(true, &mut args).is_err());

    let flag_methods = vec![&FLAG_ADD, &DEFAULT];
    let mut args = vec!["add".to_string(), "1".to_string(), "2".to_string()];
    assert!(flag_methods.get_method(true, &mut args).is_err());
}

#[test]
fn get_method_does_not_consume_default_bare_function_name() {
    let methods = vec![&DEFAULT];
    let mut args = vec!["default".to_string()];

    assert_eq!(methods.get_method(true, &mut args).unwrap().name, "default");
    assert_eq!(args, vec!["default".to_string()]);
}
