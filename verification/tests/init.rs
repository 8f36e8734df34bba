use kakpipe::args::FifoArgs;
use kakpipe::fifo::debug_banner;
use kakpipe::init::{join_args, Paths};

fn args_with(rw: bool, scroll: bool, opts: &[&str]) -> FifoArgs {
    FifoArgs {
        rw,
        scroll,
        debug: false,
        session: String::from("s"),
        prefix: None,
        name: None,
        clear_env: false,
        vars: vec![],
        opts: opts.iter().map(|o| o.to_string()).collect(),
        cmd: String::from("make"),
        args: vec![],
    }
}

fn paths() -> Paths {
    Paths {
        fifo: String::from("/t/a.fifo"),
        socket: String::from("/t/a.sock"),
        pipe_pid: String::from("/t/a.pid1"),
        daemon_pid: String::from("/t/a.pid2"),
    }
}

#[test]
fn arguments_joined_with_leading_spaces() {
    assert_eq!(join_args(&vec![]), "");
    assert_eq!(
        join_args(&vec![String::from("-s"), String::from("main"), String::from("ls")]),
        " -s main ls"
    );
}

#[test]
fn setup_commands_in_full() {
    let commands = args_with(false, false, &[]).init_commands("*make*", " make all", &paths());
    let expected = "hook -once global BufOpenFifo \\**make*\\* %{ set-option buffer kakpipe_args %{ make all}\n alias buffer !! kakpipe-restart }\n\
edit! -fifo /t/a.fifo -readonly **make**\n\
add-highlighter -override buffer/kakpipe ranges kakpipe_color_ranges\n\
hook -once buffer BufClose \\**make*\\* %{ nop %sh{\n\
test -f /t/a.pid1 && pid=$(cat /t/a.pid1) && rm -f /t/a.pid1 && test -n $pid && kill $pid >/dev/null 2>&1\n\
test -f /t/a.pid2 && pid=$(cat /t/a.pid2) && rm -f /t/a.pid2 && test -n $pid && kill $pid >/dev/null 2>&1\n\
test -p /t/a.fifo && rm -f /t/a.fifo\n\
test -S /t/a.sock && rm -f /t/a.sock\n\
} }\n\
try %{ remove-hooks buffer kakpipe }\n\
hook -group kakpipe buffer BufReadFifo .* %{ evaluate-commands %sh{ test -S /t/a.sock && kakpipe range-specs /t/a.sock $kak_hook_param } }";
    assert_eq!(commands, expected);
}

#[test]
fn setup_opens_the_buffer_as_asked() {
    let edit = |rw: bool, scroll: bool| {
        let commands = args_with(rw, scroll, &[]).init_commands("b", "", &paths());
        commands.lines().find(|l| l.starts_with("edit!")).unwrap().to_owned()
    };
    assert_eq!(edit(false, false), "edit! -fifo /t/a.fifo -readonly *b*");
    assert_eq!(edit(true, false), "edit! -fifo /t/a.fifo *b*");
    assert_eq!(edit(false, true), "edit! -fifo /t/a.fifo -scroll -readonly *b*");
    assert_eq!(edit(true, true), "edit! -fifo /t/a.fifo -scroll *b*");
}

#[test]
fn options_become_commands() {
    assert_eq!(args_with(false, false, &[]).option_commands(), "");
    assert_eq!(
        args_with(false, false, &["filetype=make", "novalue", "x=", "a=b=c"]).option_commands(),
        "set-option buffer filetype make\nset-option buffer x \nset-option buffer a b=c\n"
    );
}

#[test]
fn run_is_announced_in_the_debug_buffer() {
    let args = vec![String::from("-j4"), String::from("a \"b\"")];
    assert_eq!(
        debug_banner(true, "make", &args),
        "echo -debug +++ start make [\"-j4\", \"a \\\"b\\\"\"]"
    );
    assert_eq!(debug_banner(false, "make", &vec![]), "echo -debug +++ end make []");
}
