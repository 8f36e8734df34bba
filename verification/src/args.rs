//! What the command line asks for, as plain values, and the rules that read
//! them.

use crate::text::{find_byte, first_index, lemma_boundary_at_ascii, lemma_first_index};
use std::path::Path;
use vstd::prelude::*;
use vstd::string::StringSliceAdditionalSpecFns;
use vstd::utf8::{decode_utf8, encode_utf8, encode_utf8_decode_utf8, encode_utf8_valid_utf8};

verus! {

/// What the program was asked to do.
#[derive(Debug)]
pub struct Args {
    pub mode: Mode,
}

/// The three things the program does.
#[derive(Debug)]
pub enum Mode {
    Fifo(FifoArgs),
    RangeSpecs(RangeSpecsArgs),
    Faces(FacesArgs),
}

/// Run a command, show its output in a fifo buffer, and serve the ranges
/// of its colours through a socket.
#[derive(Debug)]
pub struct FifoArgs {
    /// The buffer can be edited; without it the buffer is read-only.
    pub rw: bool,
    /// The buffer scrolls down as output arrives.
    pub scroll: bool,
    /// The command's error output goes to the editor's debug buffer.
    pub debug: bool,
    /// The Kakoune session.
    pub session: String,
    /// The beginning of the buffer's name, in place of the command's name.
    pub prefix: Option<String>,
    /// The buffer's name.
    pub name: Option<String>,
    /// The command starts with an empty environment.
    pub clear_env: bool,
    /// Environment variables for the command, each `NAME=VALUE`, or `NAME`
    /// for a variable that is handed on as it is.
    pub vars: Vec<String>,
    /// Options to set in the buffer, each `NAME=VALUE`.
    pub opts: Vec<String>,
    /// The command.
    pub cmd: String,
    /// The command's arguments.
    pub args: Vec<String>,
}

/// Fetch the ranges that a fifo buffer's server has ready.
#[derive(Debug)]
pub struct RangeSpecsArgs {
    /// The path of the server's socket.
    pub socket: String,
    /// The selection up to which ranges are wanted; `0.0,0.0` for all.
    pub range: String,
}

/// Turn the styling codes of the input into face markup.
#[derive(Debug)]
pub struct FacesArgs {}

/// The byte of the equals sign.
pub const EQUALS: u8 = 0x3d;

/// The name in a definition `NAME=VALUE`: what stands before the first
/// equals sign, or everything where there is none.
pub open spec fn key_of(definition: Seq<u8>) -> Seq<u8> {
    definition.take(first_index(definition, EQUALS))
}

/// The value in a definition `NAME=VALUE`: what stands behind the first
/// equals sign, which may be nothing. Without an equals sign there is no
/// value.
pub open spec fn value_of(definition: Seq<u8>) -> Option<Seq<u8>> {
    if first_index(definition, EQUALS) < definition.len() {
        Some(definition.skip(first_index(definition, EQUALS) + 1))
    } else {
        None
    }
}

/// The name in a definition, as text.
pub open spec fn key_text(definition: Seq<char>) -> Seq<char> {
    decode_utf8(key_of(encode_utf8(definition)))
}

/// The value in a definition, as text.
pub open spec fn value_text(definition: Seq<char>) -> Option<Seq<char>> {
    match value_of(encode_utf8(definition)) {
        Some(value) => Some(decode_utf8(value)),
        None => None,
    }
}

/// The bytes of an optional text.
pub open spec fn bytes_of(text: Option<&str>) -> Option<Seq<u8>> {
    match text {
        Some(t) => Some(t.spec_bytes()),
        None => None,
    }
}

/// Splits a definition into its name and its value.
pub fn parse_key_val(exp: &str) -> (pair: (&str, Option<&str>))
    ensures
        pair.0.spec_bytes() == key_of(exp.spec_bytes()),
        bytes_of(pair.1) == value_of(exp.spec_bytes()),
{
    let bytes = exp.as_bytes();
    let at = find_byte(bytes, EQUALS);
    proof {
        encode_utf8_valid_utf8(exp@);
        lemma_first_index(bytes@, EQUALS);
    }
    if at < bytes.len() {
        proof {
            lemma_boundary_at_ascii(bytes@, at as int);
        }
        let (key, rest) = exp.split_at(at);
        proof {
            encode_utf8_valid_utf8(rest@);
            assert(rest.spec_bytes()[0] == EQUALS);
            lemma_boundary_at_ascii(rest.spec_bytes(), 0);
        }
        let (_, value) = rest.split_at(1);
        assert(value.spec_bytes() == bytes@.skip(at + 1));
        (key, Some(value))
    } else {
        assert(bytes@.take(at as int) == bytes@);
        (exp, None)
    }
}

/// The index of the first of `definitions` that has no equals sign, or
/// their number where each has one.
pub open spec fn first_without_value(definitions: Seq<String>) -> int
    decreases definitions.len(),
{
    if definitions.len() == 0 || value_of(encode_utf8(definitions[0]@)) is None {
        0
    } else {
        1 + first_without_value(definitions.drop_first())
    }
}

impl FifoArgs {
    /// Looks for a buffer option that is no definition `NAME=VALUE`, and
    /// returns the index of the first one.
    pub fn malformed_opt(&self) -> (at: Option<usize>)
        ensures
            match at {
                Some(i) => i < self.opts@.len() && i == first_without_value(self.opts@),
                None => first_without_value(self.opts@) == self.opts@.len(),
            },
    {
        let mut i: usize = 0;
        assert(self.opts@.skip(0) == self.opts@);
        while i < self.opts.len()
            invariant
                i <= self.opts.len(),
                first_without_value(self.opts@) == i + first_without_value(
                    self.opts@.skip(i as int),
                ),
            decreases self.opts.len() - i,
        {
            let (_, value) = parse_key_val(self.opts[i].as_str());
            let ghost rest = self.opts@.skip(i as int);
            assert(rest[0] == self.opts@[i as int]);
            if value.is_none() {
                return Some(i);
            }
            assert(rest.drop_first() == self.opts@.skip(i as int + 1));
            i = i + 1;
        }
        None
    }
}

/// The byte of the slash.
pub const SLASH: u8 = 0x2f;

/// The byte of the dash.
pub const DASH: u8 = 0x2d;

/// The index behind the last slash in the text; zero where it holds none.
pub open spec fn after_last_slash(text: Seq<u8>) -> int
    decreases text.len(),
{
    if text.len() == 0 {
        0
    } else if text.last() == SLASH {
        text.len() as int
    } else {
        after_last_slash(text.drop_last())
    }
}

/// The name of a command without the directories in front of it. A
/// command that ends in a slash is kept whole.
pub open spec fn command_stem(cmd: Seq<u8>) -> Seq<u8> {
    if after_last_slash(cmd) < cmd.len() {
        cmd.skip(after_last_slash(cmd))
    } else {
        cmd
    }
}

/// The argument is a switch: it begins with a dash.
pub open spec fn is_switch(arg: Seq<u8>) -> bool {
    arg.len() > 0 && arg[0] == DASH
}

/// The arguments that are no switches, each with a dash in front of it.
pub open spec fn plain_arguments(args: Seq<String>) -> Seq<char>
    decreases args.len(),
{
    if args.len() == 0 {
        Seq::empty()
    } else if is_switch(encode_utf8(args.last()@)) {
        plain_arguments(args.drop_last())
    } else {
        plain_arguments(args.drop_last()) + seq!['-'] + args.last()@
    }
}

/// The name of the fifo buffer. A name that was asked for is taken as it
/// is. Else the name is made of the prefix, or without one of the
/// command's name, then of the arguments that are no switches, then of the
/// time stamp, with dashes between them.
pub open spec fn buffer_name_of(args: FifoArgs, stamp: Seq<char>) -> Seq<char> {
    match args.name {
        Some(name) => name@,
        None => (match args.prefix {
            Some(prefix) => prefix@,
            None => decode_utf8(command_stem(encode_utf8(args.cmd@))),
        }) + plain_arguments(args.args@) + seq!['-'] + stamp,
    }
}

/// The command's name without the directories in front of it.
fn stem(cmd: &str) -> (name: &str)
    ensures
        name.spec_bytes() == command_stem(cmd.spec_bytes()),
{
    let bytes = cmd.as_bytes();
    let mut at: usize = bytes.len();
    assert(bytes@.take(at as int) == bytes@);
    while at > 0 && bytes[at - 1] != SLASH
        invariant
            at <= bytes.len(),
            after_last_slash(bytes@) == after_last_slash(bytes@.take(at as int)),
        decreases at,
    {
        assert(bytes@.take(at as int).drop_last() == bytes@.take(at as int - 1));
        at = at - 1;
    }
    proof {
        encode_utf8_valid_utf8(cmd@);
        if at > 0 {
            lemma_boundary_at_ascii(bytes@, at - 1);
        }
    }
    if at > 0 && at < bytes.len() {
        let (_, name) = cmd.split_at(at);
        name
    } else {
        assert(after_last_slash(bytes@) == 0 || after_last_slash(bytes@) == bytes@.len());
        assert(bytes@.skip(0) == bytes@);
        cmd
    }
}

impl FifoArgs {
    /// The name of the fifo buffer, made with the time stamp `stamp` where
    /// none was asked for.
    pub fn buffer_name(&self, stamp: &str) -> (name: String)
        ensures
            name@ == buffer_name_of(*self, stamp@),
    {
        let mut name = String::new();
        match &self.name {
            Some(given) => {
                name.push_str(given.as_str());
                return name;
            },
            None => {},
        }
        match &self.prefix {
            Some(prefix) => {
                name.push_str(prefix.as_str());
            },
            None => {
                let short = stem(self.cmd.as_str());
                proof {
                    encode_utf8_decode_utf8(short@);
                }
                name.push_str(short);
            },
        }
        let ghost head = name@;
        let mut i: usize = 0;
        while i < self.args.len()
            invariant
                i <= self.args.len(),
                name@ == head + plain_arguments(self.args@.take(i as int)),
            decreases self.args.len() - i,
        {
            let arg = self.args[i].as_str();
            let bytes = arg.as_bytes();
            proof {
                let now = self.args@.take(i as int + 1);
                assert(now.drop_last() == self.args@.take(i as int));
                assert(now.last() == self.args@[i as int]);
            }
            if !(bytes.len() > 0 && bytes[0] == DASH) {
                name.push('-');
                name.push_str(arg);
            }
            i = i + 1;
        }
        assert(self.args@.take(self.args.len() as int) == self.args@);
        name.push('-');
        name.push_str(stamp);
        name
    }
}

/// The last component of a path, as `std::path::Path::file_name` finds it
/// on the platform that the library is built for; none where the path ends
/// in `..` or has no component.
pub uninterp spec fn file_name(path: Seq<char>) -> Option<Seq<char>>;

/// Asks `std::path::Path::file_name` for the last component of the path.
/// The path is text, so its components are text too.
#[verifier::external_body]
fn path_file_name(path: &str) -> (name: Option<&str>)
    ensures
        match name {
            Some(n) => file_name(path@) == Some(n@),
            None => file_name(path@) is None,
        },
{
    Path::new(path).file_name().and_then(|name| name.to_str())
}

/// The name to show for the program: the last component of the path it
/// was called by, or `default` where the path has none.
pub fn cmd<'a>(default: &'a String, path: &'a String) -> (name: &'a str)
    ensures
        name@ == match file_name(path@) {
            Some(n) => n,
            None => default@,
        },
{
    match path_file_name(path.as_str()) {
        Some(name) => name,
        None => default.as_str(),
    }
}

} // verus!
