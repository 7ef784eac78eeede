use klask::app_state::AppState;
use klask::descriptor::{ArgDescriptor, CommandDescriptor, ValueHint};
use klask::settings::Localization;

fn arg(id: &str) -> ArgDescriptor {
    ArgDescriptor {
        id: id.to_string(),
        long: None,
        short: None,
        help: None,
        long_help: None,
        required: false,
        forbid_empty: false,
        takes_value: false,
        multiple_values: false,
        multiple_occurrences: false,
        use_delimiter: false,
        require_delimiter: false,
        require_equals: false,
        default_values: vec![],
        possible_values: vec![],
        value_hint: ValueHint::Unspecified,
    }
}

fn text(id: &str, required: bool) -> ArgDescriptor {
    let mut a = arg(id);
    a.long = Some(id.replace('_', "-"));
    a.takes_value = true;
    a.required = required;
    a
}

fn multi(id: &str) -> ArgDescriptor {
    let mut a = arg(id);
    a.long = Some(id.replace('_', "-"));
    a.takes_value = true;
    a.multiple_values = true;
    a
}

fn command(args: Vec<ArgDescriptor>) -> CommandDescriptor {
    CommandDescriptor {
        name: "_name".to_string(),
        about: None,
        args,
        subcommands: vec![],
    }
}

fn state(args: Vec<ArgDescriptor>) -> AppState {
    let loc = Localization::default();
    AppState::new(&command(args), &loc)
}

#[test]
fn simple() {
    let mut flag_true = arg("flag_true");
    flag_true.long = Some("flag-true".to_string());
    let mut flag_false = arg("flag_false");
    flag_false.long = Some("flag-false".to_string());
    let mut occurrences = arg("occurrences");
    occurrences.long = Some("occurrences".to_string());
    occurrences.multiple_occurrences = true;

    let mut st = state(vec![
        text("single", true),
        text("optional_no_enter", false),
        text("optional_enter", false),
        flag_true,
        flag_false,
        occurrences,
    ]);
    st.args[0].enter("a");
    st.args[2].enter("b");
    st.args[3].set();
    st.args[5].occurrences(3);
    let tokens = st.get_cmd_args(vec!["_name".to_string()]).unwrap();

    let cmd = clap::Command::new("_name")
        .arg(clap::Arg::new("single").long("single").takes_value(true).required(true))
        .arg(clap::Arg::new("optional_no_enter").long("optional-no-enter").takes_value(true))
        .arg(clap::Arg::new("optional_enter").long("optional-enter").takes_value(true))
        .arg(clap::Arg::new("flag_true").long("flag-true"))
        .arg(clap::Arg::new("flag_false").long("flag-false"))
        .arg(clap::Arg::new("occurrences").long("occurrences").multiple_occurrences(true));
    let m = cmd.try_get_matches_from(tokens.iter()).unwrap();
    assert_eq!(m.value_of("single"), Some("a"));
    assert_eq!(m.value_of("optional_no_enter"), None);
    assert_eq!(m.value_of("optional_enter"), Some("b"));
    assert!(m.is_present("flag_true"));
    assert!(!m.is_present("flag_false"));
    assert_eq!(m.occurrences_of("occurrences"), 3);
}

#[test]
fn forbid_empty() {
    let mut a1 = text("optional_no_empty1", false);
    a1.forbid_empty = true;
    let mut a2 = text("optional_no_empty2", false);
    a2.forbid_empty = true;
    let mut a3 = text("optional_no_empty3", false);
    a3.forbid_empty = true;
    let mut st = state(vec![a1, a2, a3]);
    st.args[0].enter("a");
    st.args[2].enter("");
    let tokens = st.get_cmd_args(vec!["_name".to_string()]).unwrap();

    let cmd = clap::Command::new("_name")
        .arg(
            clap::Arg::new("optional_no_empty1")
                .long("optional-no-empty1")
                .takes_value(true)
                .forbid_empty_values(true),
        )
        .arg(
            clap::Arg::new("optional_no_empty2")
                .long("optional-no-empty2")
                .takes_value(true)
                .forbid_empty_values(true),
        )
        .arg(
            clap::Arg::new("optional_no_empty3")
                .long("optional-no-empty3")
                .takes_value(true)
                .forbid_empty_values(true),
        );
    let m = cmd.try_get_matches_from(tokens.iter()).unwrap();
    assert_eq!(m.value_of("optional_no_empty1"), Some("a"));
    assert_eq!(m.value_of("optional_no_empty2"), None);
    assert_eq!(m.value_of("optional_no_empty3"), None);
}

#[test]
fn optional_and_default() {
    let mut required = arg("required");
    required.takes_value = true;
    required.required = true;
    let mut optional = arg("optional");
    optional.takes_value = true;
    let mut default = arg("default");
    default.takes_value = true;
    default.default_values = vec!["d".to_string()];

    let mut st = state(vec![required, optional, default]);
    st.args[0].enter("a");
    let tokens = st.get_cmd_args(vec!["_name".to_string()]).unwrap();

    let cmd = clap::Command::new("_name")
        .arg(clap::Arg::new("required").takes_value(true).required(true))
        .arg(clap::Arg::new("optional").takes_value(true))
        .arg(clap::Arg::new("default").takes_value(true).default_value("d"));
    let m = cmd.try_get_matches_from(tokens.iter()).unwrap();
    assert_eq!(m.value_of("required"), Some("a"));
    assert_eq!(m.value_of("optional"), None);
    assert_eq!(m.value_of("default"), Some("d"));
}

#[test]
fn use_equals() {
    let mut long = text("long", true);
    long.require_equals = true;
    let mut short = arg("short");
    short.short = Some("s".to_string());
    short.takes_value = true;
    short.required = true;
    short.require_equals = true;
    let mut path = text("path", true);
    path.require_equals = true;
    path.value_hint = ValueHint::AnyPath;
    let mut choose = text("choose", true);
    choose.require_equals = true;
    choose.possible_values = vec!["P".to_string(), "O".to_string()];
    let mut multiple_enter_one = multi("multiple_enter_one");
    multiple_enter_one.require_equals = true;
    let mut multiple_occurrences = multi("multiple_occurrences");
    multiple_occurrences.require_equals = true;
    multiple_occurrences.multiple_occurrences = true;
    let mut occurrences = arg("occurrences");
    occurrences.long = Some("occurrences".to_string());
    occurrences.multiple_occurrences = true;
    let mut flag = arg("flag");
    flag.long = Some("flag".to_string());

    let mut st = state(vec![
        long,
        short,
        path,
        choose,
        multiple_enter_one,
        multiple_occurrences,
        occurrences,
        flag,
    ]);
    st.args[0].enter("a");
    st.args[1].enter("b");
    st.args[2].enter("c");
    st.args[3].enter("P");
    st.args[4].enter_multiple(&["d"]);
    st.args[5].enter_multiple(&["e", "f"]);
    st.args[6].occurrences(3);
    st.args[7].set();
    let tokens = st.get_cmd_args(vec!["_name".to_string()]).unwrap();

    let cmd = clap::Command::new("_name")
        .arg(
            clap::Arg::new("long")
                .long("long")
                .takes_value(true)
                .required(true)
                .require_equals(true),
        )
        .arg(
            clap::Arg::new("short")
                .short('s')
                .takes_value(true)
                .required(true)
                .require_equals(true),
        )
        .arg(
            clap::Arg::new("path")
                .long("path")
                .takes_value(true)
                .required(true)
                .require_equals(true),
        )
        .arg(
            clap::Arg::new("choose")
                .long("choose")
                .takes_value(true)
                .required(true)
                .require_equals(true)
                .possible_values(["P", "O"]),
        )
        .arg(
            clap::Arg::new("multiple_enter_one")
                .long("multiple-enter-one")
                .takes_value(true)
                .multiple_values(true)
                .require_equals(true),
        )
        .arg(
            clap::Arg::new("multiple_occurrences")
                .long("multiple-occurrences")
                .takes_value(true)
                .multiple_values(true)
                .multiple_occurrences(true)
                .require_equals(true),
        )
        .arg(clap::Arg::new("occurrences").long("occurrences").multiple_occurrences(true))
        .arg(clap::Arg::new("flag").long("flag"));
    let m = cmd.try_get_matches_from(tokens.iter()).unwrap();
    assert_eq!(m.value_of("long"), Some("a"));
    assert_eq!(m.value_of("short"), Some("b"));
    assert_eq!(m.value_of("path"), Some("c"));
    assert_eq!(m.value_of("choose"), Some("P"));
    assert_eq!(
        m.values_of("multiple_enter_one").unwrap().collect::<Vec<_>>(),
        vec!["d"]
    );
    assert_eq!(
        m.values_of("multiple_occurrences").unwrap().collect::<Vec<_>>(),
        vec!["e", "f"]
    );
    assert_eq!(m.occurrences_of("occurrences"), 3);
    assert!(m.is_present("flag"));
}

#[test]
fn different_multiple_values() {
    let mut f0 = multi("multiple_equals_enter_one");
    f0.require_equals = true;
    let mut f1 = multi("multiple_occurrences_equals");
    f1.require_equals = true;
    f1.multiple_occurrences = true;
    let mut f2 = multi("multiple_occurrences");
    f2.multiple_occurrences = true;
    let f3 = multi("multiple");
    let mut f4 = multi("multiple_equals_use_delim");
    f4.require_equals = true;
    f4.use_delimiter = true;
    let mut f5 = multi("multiple_equals_req_delim");
    f5.require_equals = true;
    f5.use_delimiter = true;
    f5.require_delimiter = true;
    let mut f6 = multi("multiple_use_delim");
    f6.use_delimiter = true;
    let mut f7 = multi("multiple_req_delim");
    f7.use_delimiter = true;
    f7.require_delimiter = true;
    let f8 = multi("multiple_none_entered");
    let mut f9 = multi("multiple_equals_none_entered");
    f9.require_equals = true;
    let mut f10 = multi("multiple_req_delim_none_entered");
    f10.use_delimiter = true;

    let mut st = state(vec![f0, f1, f2, f3, f4, f5, f6, f7, f8, f9, f10]);
    st.args[0].enter_multiple(&["a"]);
    st.args[1].enter_multiple(&["b", "c"]);
    st.args[2].enter_multiple(&["d", "e"]);
    st.args[3].enter_multiple(&["f", "g"]);
    st.args[4].enter_multiple(&["h", "i"]);
    st.args[5].enter_multiple(&["j", "k"]);
    st.args[6].enter_multiple(&["l", "m"]);
    st.args[7].enter_multiple(&["n", "o"]);
    let tokens = st.get_cmd_args(vec!["_name".to_string()]).unwrap();

    fn marg(id: &str) -> clap::Arg {
        clap::Arg::new(id.to_string().leak() as &str)
            .long(id.replace('_', "-").leak() as &str)
            .takes_value(true)
            .multiple_values(true)
    }
    let cmd = clap::Command::new("_name")
        .arg(marg("multiple_equals_enter_one").require_equals(true))
        .arg(marg("multiple_occurrences_equals").require_equals(true).multiple_occurrences(true))
        .arg(marg("multiple_occurrences").multiple_occurrences(true))
        .arg(marg("multiple"))
        .arg(marg("multiple_equals_use_delim").require_equals(true).use_value_delimiter(true))
        .arg(
            marg("multiple_equals_req_delim")
                .require_equals(true)
                .use_value_delimiter(true)
                .require_value_delimiter(true),
        )
        .arg(marg("multiple_use_delim").use_value_delimiter(true))
        .arg(marg("multiple_req_delim").use_value_delimiter(true).require_value_delimiter(true))
        .arg(marg("multiple_none_entered"))
        .arg(marg("multiple_equals_none_entered").require_equals(true))
        .arg(marg("multiple_req_delim_none_entered").use_value_delimiter(true));
    let m = cmd.try_get_matches_from(tokens.iter()).unwrap();
    let vals = |id: &str| -> Vec<String> {
        m.values_of(id).map(|v| v.map(|s| s.to_string()).collect()).unwrap_or_default()
    };
    assert_eq!(vals("multiple_equals_enter_one"), vec!["a"]);
    assert_eq!(vals("multiple_occurrences_equals"), vec!["b", "c"]);
    assert_eq!(vals("multiple_occurrences"), vec!["d", "e"]);
    assert_eq!(vals("multiple"), vec!["f", "g"]);
    assert_eq!(vals("multiple_equals_use_delim"), vec!["h", "i"]);
    assert_eq!(vals("multiple_equals_req_delim"), vec!["j", "k"]);
    assert_eq!(vals("multiple_use_delim"), vec!["l", "m"]);
    assert_eq!(vals("multiple_req_delim"), vec!["n", "o"]);
    assert_eq!(vals("multiple_none_entered"), Vec::<String>::new());
    assert_eq!(vals("multiple_equals_none_entered"), Vec::<String>::new());
    assert_eq!(vals("multiple_req_delim_none_entered"), Vec::<String>::new());
}

#[test]
fn required_error_names_argument() {
    let mut st = state(vec![text("input", true)]);
    let err = st.get_cmd_args(vec![]).unwrap_err();
    assert_eq!(err, "Argument 'Input' is required");
    st.args[0].enter("x");
    assert!(st.get_cmd_args(vec![]).is_ok());
}

#[test]
fn required_default_is_emitted_verbatim() {
    let mut with_default = text("input", true);
    with_default.default_values = vec!["fallback".to_string()];
    let st = state(vec![with_default]);
    let tokens = st.get_cmd_args(vec![]).unwrap();
    assert_eq!(tokens, vec!["--input".to_string(), "fallback".to_string()]);
}

#[test]
fn delimiter_and_occurrence_tokens() {
    let mut delim = multi("values");
    delim.use_delimiter = true;
    delim.require_delimiter = true;
    let mut st = state(vec![delim]);
    st.args[0].enter_multiple(&["a", "b"]);
    let tokens = st.get_cmd_args(vec![]).unwrap();
    assert_eq!(tokens, vec!["--values".to_string(), "a,b".to_string()]);

    let mut occ = multi("values");
    occ.multiple_values = false;
    occ.multiple_occurrences = true;
    let mut st = state(vec![occ]);
    st.args[0].enter_multiple(&["a", "b"]);
    let tokens = st.get_cmd_args(vec![]).unwrap();
    assert_eq!(
        tokens,
        vec![
            "--values".to_string(),
            "a".to_string(),
            "--values".to_string(),
            "b".to_string()
        ]
    );
}

#[test]
fn equals_syntax_single_token() {
    let mut path = text("path", true);
    path.require_equals = true;
    let mut st = state(vec![path]);
    st.args[0].enter("c");
    let tokens = st.get_cmd_args(vec![]).unwrap();
    assert_eq!(tokens, vec!["--path=c".to_string()]);
}

#[test]
fn subcommand_chain_and_sorted_names() {
    let mut input = arg("input");
    input.takes_value = true;
    input.required = true;
    let walk = CommandDescriptor {
        name: "walk".to_string(),
        about: None,
        args: vec![],
        subcommands: vec![],
    };
    let run = CommandDescriptor {
        name: "run".to_string(),
        about: None,
        args: vec![],
        subcommands: vec![],
    };
    let test_cmd = CommandDescriptor {
        name: "test".to_string(),
        about: None,
        args: vec![text("debug", false)],
        subcommands: vec![],
    };
    let root = CommandDescriptor {
        name: "root".to_string(),
        about: Some("sample".to_string()),
        args: vec![input],
        subcommands: vec![walk, run, test_cmd],
    };
    let loc = Localization::default();
    let mut st = AppState::new(&root, &loc);
    // names are kept sorted for display, while the first declared
    // sub-command is the initial selection
    assert_eq!(st.subcommands[0].0, "run");
    assert_eq!(st.subcommands[1].0, "test");
    assert_eq!(st.subcommands[2].0, "walk");
    assert_eq!(st.current.as_deref(), Some("walk"));
    st.args[0].enter("x");
    let tokens = st.get_cmd_args(vec![]).unwrap();
    assert_eq!(tokens, vec!["x".to_string(), "walk".to_string()]);
}

#[test]
fn help_and_version_are_excluded() {
    let st = state(vec![text("help", false), text("version", false), text("real", false)]);
    assert_eq!(st.args.len(), 1);
}
