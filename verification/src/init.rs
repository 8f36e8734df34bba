//! The commands that set the editor up for a run: they open the fifo
//! buffer, clean up when it closes, and ask for ranges whenever the buffer
//! has read from the fifo.

use crate::args::{key_text, parse_key_val, value_text, FifoArgs};
use vstd::prelude::*;
use vstd::string::StringSliceAdditionalSpecFns;
use vstd::utf8::encode_utf8_decode_utf8;

verus! {

/// The paths of the files of one run.
#[derive(Debug)]
pub struct Paths {
    /// The fifo that carries the text.
    pub fifo: String,
    /// The socket that serves the ranges.
    pub socket: String,
    /// The file that holds the process id of the command.
    pub pipe_pid: String,
    /// The file that holds the process id of the relay.
    pub daemon_pid: String,
}

/// The arguments as they stood on the command line: each with a space
/// before it.
pub open spec fn command_line(args: Seq<String>) -> Seq<char>
    decreases args.len(),
{
    if args.len() == 0 {
        Seq::empty()
    } else {
        command_line(args.drop_last()) + seq![' '] + args.last()@
    }
}

/// Puts the arguments together, each with a space before it.
pub fn join_args(args: &Vec<String>) -> (line: String)
    ensures
        line@ == command_line(args@),
{
    let mut line = String::new();
    let mut i: usize = 0;
    while i < args.len()
        invariant
            i <= args.len(),
            line@ == command_line(args@.take(i as int)),
        decreases args.len() - i,
    {
        proof {
            let now = args@.take(i as int + 1);
            assert(now.drop_last() == args@.take(i as int));
            assert(now.last() == args@[i as int]);
        }
        line.push(' ');
        line.push_str(args[i].as_str());
        i = i + 1;
    }
    assert(args@.take(args.len() as int) == args@);
    line
}

/// The hook that, once the buffer is open, stores the arguments of the run
/// in it, so that the run can be started again from the buffer.
pub open spec fn open_hook(buffer_name: Seq<char>, cmd_args: Seq<char>) -> Seq<char> {
    "hook -once global BufOpenFifo \\*"@ + buffer_name
        + "\\* %{ set-option buffer kakpipe_args %{"@ + cmd_args
        + "}\n alias buffer !! kakpipe-restart }\n"@
}

/// The command that opens the fifo in a buffer: read-only unless the buffer
/// is to be edited, and scrolling where that was asked for.
pub open spec fn edit_command(
    fifo: Seq<char>,
    scroll: bool,
    rw: bool,
    buffer_name: Seq<char>,
) -> Seq<char> {
    "edit! -fifo "@ + fifo + (if scroll {
        " -scroll"@
    } else {
        Seq::empty()
    }) + (if rw {
        Seq::empty()
    } else {
        " -readonly"@
    }) + " *"@ + buffer_name + "*\n"@
}

/// The command that shows the ranges of the buffer as colours.
pub open spec fn highlighter_command() -> Seq<char> {
    "add-highlighter -override buffer/kakpipe ranges kakpipe_color_ranges\n"@
}

/// The shell line that ends the process whose id a file holds, and removes
/// the file.
pub open spec fn kill_line(pid_file: Seq<char>) -> Seq<char> {
    "test -f "@ + pid_file + " && pid=$(cat "@ + pid_file + ") && rm -f "@ + pid_file
        + " && test -n $pid && kill $pid >/dev/null 2>&1\n"@
}

/// The shell line that removes a file if it is of the kind that `test`
/// tells by `flag`.
pub open spec fn remove_line(flag: Seq<char>, file: Seq<char>) -> Seq<char> {
    "test "@ + flag + " "@ + file + " && rm -f "@ + file + "\n"@
}

/// The hook that cleans up when the buffer closes: it ends the command and
/// the relay, and removes the fifo and the socket.
pub open spec fn close_hook(buffer_name: Seq<char>, paths: Paths) -> Seq<char> {
    "hook -once buffer BufClose \\*"@ + buffer_name + "\\* %{ nop %sh{\n"@ + kill_line(
        paths.pipe_pid@,
    ) + kill_line(paths.daemon_pid@) + remove_line("-p"@, paths.fifo@) + remove_line(
        "-S"@,
        paths.socket@,
    ) + "} }\n"@
}

/// The hook that asks the server for ranges whenever the buffer has read
/// from the fifo, in place of any such hook of an earlier run.
pub open spec fn read_hook(socket: Seq<char>) -> Seq<char> {
    "try %{ remove-hooks buffer kakpipe }\nhook -group kakpipe buffer BufReadFifo .* %{ evaluate-commands %sh{ test -S "@
        + socket + " && kakpipe range-specs "@ + socket + " $kak_hook_param } }"@
}

/// All the commands that set the editor up, in their order.
pub open spec fn init_commands_of(
    args: FifoArgs,
    buffer_name: Seq<char>,
    cmd_args: Seq<char>,
    paths: Paths,
) -> Seq<char> {
    open_hook(buffer_name, cmd_args) + edit_command(paths.fifo@, args.scroll, args.rw, buffer_name)
        + highlighter_command() + close_hook(buffer_name, paths) + read_hook(paths.socket@)
}

fn push_open_hook(out: &mut String, buffer_name: &str, cmd_args: &str)
    ensures
        final(out)@ == old(out)@ + open_hook(buffer_name@, cmd_args@),
{
    out.push_str("hook -once global BufOpenFifo \\*");
    out.push_str(buffer_name);
    out.push_str("\\* %{ set-option buffer kakpipe_args %{");
    out.push_str(cmd_args);
    out.push_str("}\n alias buffer !! kakpipe-restart }\n");
    assert(final(out)@ =~= old(out)@ + open_hook(buffer_name@, cmd_args@));
}

fn push_edit_command(out: &mut String, fifo: &str, scroll: bool, rw: bool, buffer_name: &str)
    ensures
        final(out)@ == old(out)@ + edit_command(fifo@, scroll, rw, buffer_name@),
{
    out.push_str("edit! -fifo ");
    out.push_str(fifo);
    if scroll {
        out.push_str(" -scroll");
    }
    if !rw {
        out.push_str(" -readonly");
    }
    out.push_str(" *");
    out.push_str(buffer_name);
    out.push_str("*\n");
    assert(final(out)@ =~= old(out)@ + edit_command(fifo@, scroll, rw, buffer_name@));
}

fn push_kill_line(out: &mut String, pid_file: &str)
    ensures
        final(out)@ == old(out)@ + kill_line(pid_file@),
{
    out.push_str("test -f ");
    out.push_str(pid_file);
    out.push_str(" && pid=$(cat ");
    out.push_str(pid_file);
    out.push_str(") && rm -f ");
    out.push_str(pid_file);
    out.push_str(" && test -n $pid && kill $pid >/dev/null 2>&1\n");
    assert(final(out)@ =~= old(out)@ + kill_line(pid_file@));
}

fn push_remove_line(out: &mut String, flag: &str, file: &str)
    ensures
        final(out)@ == old(out)@ + remove_line(flag@, file@),
{
    out.push_str("test ");
    out.push_str(flag);
    out.push_str(" ");
    out.push_str(file);
    out.push_str(" && rm -f ");
    out.push_str(file);
    out.push_str("\n");
    assert(final(out)@ =~= old(out)@ + remove_line(flag@, file@));
}

fn push_close_hook(out: &mut String, buffer_name: &str, paths: &Paths)
    ensures
        final(out)@ == old(out)@ + close_hook(buffer_name@, *paths),
{
    out.push_str("hook -once buffer BufClose \\*");
    out.push_str(buffer_name);
    out.push_str("\\* %{ nop %sh{\n");
    push_kill_line(out, paths.pipe_pid.as_str());
    push_kill_line(out, paths.daemon_pid.as_str());
    push_remove_line(out, "-p", paths.fifo.as_str());
    push_remove_line(out, "-S", paths.socket.as_str());
    out.push_str("} }\n");
    assert(final(out)@ =~= old(out)@ + close_hook(buffer_name@, *paths));
}

fn push_read_hook(out: &mut String, socket: &str)
    ensures
        final(out)@ == old(out)@ + read_hook(socket@),
{
    out.push_str(
        "try %{ remove-hooks buffer kakpipe }\nhook -group kakpipe buffer BufReadFifo .* %{ evaluate-commands %sh{ test -S ",
    );
    out.push_str(socket);
    out.push_str(" && kakpipe range-specs ");
    out.push_str(socket);
    out.push_str(" $kak_hook_param } }");
    assert(final(out)@ =~= old(out)@ + read_hook(socket@));
}

/// The command that sets one option in the buffer.
pub open spec fn option_command(name: Seq<char>, value: Seq<char>) -> Seq<char> {
    "set-option buffer "@ + name + " "@ + value + "\n"@
}

/// The commands that set the buffer options that the definitions give.
/// What is no definition gives no command.
pub open spec fn option_lines(opts: Seq<String>) -> Seq<char>
    decreases opts.len(),
{
    if opts.len() == 0 {
        Seq::empty()
    } else {
        option_lines(opts.drop_last()) + (match value_text(opts.last()@) {
            Some(value) => option_command(key_text(opts.last()@), value),
            None => Seq::empty(),
        })
    }
}

impl FifoArgs {
    /// Writes the commands that set the editor up for this run. The buffer
    /// is named `buffer_name`; `cmd_args` is what the run was started with.
    pub fn init_commands(&self, buffer_name: &str, cmd_args: &str, paths: &Paths) -> (commands:
        String)
        ensures
            commands@ == init_commands_of(*self, buffer_name@, cmd_args@, *paths),
    {
        let mut out = String::new();
        push_open_hook(&mut out, buffer_name, cmd_args);
        push_edit_command(&mut out, paths.fifo.as_str(), self.scroll, self.rw, buffer_name);
        out.push_str("add-highlighter -override buffer/kakpipe ranges kakpipe_color_ranges\n");
        push_close_hook(&mut out, buffer_name, paths);
        push_read_hook(&mut out, paths.socket.as_str());
        assert(out@ =~= init_commands_of(*self, buffer_name@, cmd_args@, *paths));
        out
    }

    /// Writes the commands that set the buffer options: one for each
    /// definition among `opts`, in their order.
    pub fn option_commands(&self) -> (commands: String)
        ensures
            commands@ == option_lines(self.opts@),
    {
        let mut out = String::new();
        let mut i: usize = 0;
        while i < self.opts.len()
            invariant
                i <= self.opts.len(),
                out@ == option_lines(self.opts@.take(i as int)),
            decreases self.opts.len() - i,
        {
            proof {
                let now = self.opts@.take(i as int + 1);
                assert(now.drop_last() == self.opts@.take(i as int));
                assert(now.last() == self.opts@[i as int]);
            }
            let ghost before = out@;
            let (name, value) = parse_key_val(self.opts[i].as_str());
            match value {
                Some(value) => {
                    proof {
                        encode_utf8_decode_utf8(name@);
                        encode_utf8_decode_utf8(value@);
                    }
                    out.push_str("set-option buffer ");
                    out.push_str(name);
                    out.push_str(" ");
                    out.push_str(value);
                    out.push_str("\n");
                    assert(out@ =~= before + option_command(name@, value@));
                },
                None => {
                    assert(out@ =~= before + Seq::<char>::empty());
                },
            }
            i = i + 1;
        }
        assert(self.opts@.take(self.opts.len() as int) == self.opts@);
        out
    }
}

} // verus!
