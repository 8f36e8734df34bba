use kakpipe::args::{cmd, parse_key_val, Args, FacesArgs, FifoArgs, Mode, RangeSpecsArgs};

fn fifo_args(cmd: &str, args: &[&str]) -> FifoArgs {
    FifoArgs {
        rw: false,
        scroll: false,
        debug: false,
        session: String::from("s"),
        prefix: None,
        name: None,
        clear_env: false,
        vars: vec![],
        opts: vec![],
        cmd: String::from(cmd),
        args: args.iter().map(|a| a.to_string()).collect(),
    }
}

#[test]
fn definition_splits_at_the_first_equals_sign() {
    assert_eq!(parse_key_val("NAME=value"), ("NAME", Some("value")));
    assert_eq!(parse_key_val("NAME=a=b"), ("NAME", Some("a=b")));
    assert_eq!(parse_key_val("NAME="), ("NAME", Some("")));
    assert_eq!(parse_key_val("=value"), ("", Some("value")));
    assert_eq!(parse_key_val("NAME"), ("NAME", None));
    assert_eq!(parse_key_val(""), ("", None));
    assert_eq!(parse_key_val("clé=é"), ("clé", Some("é")));
}

#[test]
fn program_name_is_the_last_component() {
    let default = String::from("fallback");
    assert_eq!(cmd(&default, &String::from("/usr/bin/kakpipe")), "kakpipe");
    assert_eq!(cmd(&default, &String::from("kakpipe")), "kakpipe");
    assert_eq!(cmd(&default, &String::from("target/debug/kakpipe/")), "kakpipe");
    assert_eq!(cmd(&default, &String::from("/")), "fallback");
    assert_eq!(cmd(&default, &String::from("bin/..")), "fallback");
    assert_eq!(cmd(&default, &String::from("")), "fallback");
}

#[test]
fn buffer_name_that_was_asked_for() {
    let mut args = fifo_args("/usr/bin/make", &["all"]);
    args.name = Some(String::from("build"));
    args.prefix = Some(String::from("ignored"));
    assert_eq!(args.buffer_name("1700000000"), "build");
}

#[test]
fn buffer_name_from_the_command() {
    let args = fifo_args("/usr/bin/cargo", &["build", "--color=always", "-v", "kak"]);
    assert_eq!(args.buffer_name("1700000000"), "cargo-build-kak-1700000000");
    let args = fifo_args("make", &[]);
    assert_eq!(args.buffer_name("42"), "make-42");
    let args = fifo_args("dir/", &["", "-"]);
    assert_eq!(args.buffer_name("42"), "dir/--42");
    let args = fifo_args("/é/ü", &["é"]);
    assert_eq!(args.buffer_name(""), "ü-é-");
}

#[test]
fn buffer_name_from_the_prefix() {
    let mut args = fifo_args("/usr/bin/cargo", &["test"]);
    args.prefix = Some(String::from("ci"));
    assert_eq!(args.buffer_name("7"), "ci-test-7");
}

#[test]
fn options_must_be_definitions() {
    let mut args = fifo_args("make", &[]);
    assert_eq!(args.malformed_opt(), None);
    args.opts = vec![String::from("filetype=make"), String::from("a=")];
    assert_eq!(args.malformed_opt(), None);
    args.opts =
        vec![String::from("filetype=make"), String::from("oops"), String::from("again")];
    assert_eq!(args.malformed_opt(), Some(1));
}

#[test]
fn modes_carry_their_arguments() {
    let args = Args {
        mode: Mode::RangeSpecs(RangeSpecsArgs {
            socket: String::from("/tmp/kakpipe/x.sock"),
            range: String::from("0.0,0.0"),
        }),
    };
    match args.mode {
        Mode::RangeSpecs(a) => assert_eq!(a.range, "0.0,0.0"),
        _ => panic!("another mode"),
    }
    assert!(matches!(Mode::Faces(FacesArgs {}), Mode::Faces(_)));
    assert!(matches!(Mode::Fifo(fifo_args("ls", &[])), Mode::Fifo(_)));
}
