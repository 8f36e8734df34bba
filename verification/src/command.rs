//! The part of a Kakoune client that sends a command to a session through
//! its control socket: where the socket lies, and the bytes of the message.

use crate::error::Error;
use vstd::prelude::*;
use vstd::string::StringSliceAdditionalSpecFns;

verus! {

/// What a message on the control socket is about. The first byte of a
/// message is the number of its type in this list, counted from zero.
#[derive(Clone, Copy, Debug, PartialEq, Eq, Structural)]
pub enum MessageType {
    Unknown,
    Connect,
    Command,
    MenuShow,
    MenuSelect,
    MenuHide,
    InfoShow,
    InfoHide,
    Draw,
    DrawStatus,
    SetCursor,
    Refresh,
    SetOptions,
    Exit,
    Key,
}

impl MessageType {
    /// The byte that announces a message of this type.
    pub open spec fn tag(self) -> u8 {
        match self {
            MessageType::Unknown => 0,
            MessageType::Connect => 1,
            MessageType::Command => 2,
            MessageType::MenuShow => 3,
            MessageType::MenuSelect => 4,
            MessageType::MenuHide => 5,
            MessageType::InfoShow => 6,
            MessageType::InfoHide => 7,
            MessageType::Draw => 8,
            MessageType::DrawStatus => 9,
            MessageType::SetCursor => 10,
            MessageType::Refresh => 11,
            MessageType::SetOptions => 12,
            MessageType::Exit => 13,
            MessageType::Key => 14,
        }
    }

    pub fn to_tag(self) -> (tag: u8)
        ensures
            tag == self.tag(),
    {
        match self {
            MessageType::Unknown => 0,
            MessageType::Connect => 1,
            MessageType::Command => 2,
            MessageType::MenuShow => 3,
            MessageType::MenuSelect => 4,
            MessageType::MenuHide => 5,
            MessageType::InfoShow => 6,
            MessageType::InfoHide => 7,
            MessageType::Draw => 8,
            MessageType::DrawStatus => 9,
            MessageType::SetCursor => 10,
            MessageType::Refresh => 11,
            MessageType::SetOptions => 12,
            MessageType::Exit => 13,
            MessageType::Key => 14,
        }
    }
}

/// The four bytes of a 32-bit number, the least significant first.
pub open spec fn u32_le(n: u32) -> Seq<u8> {
    seq![
        (n % 0x100) as u8,
        (n / 0x100 % 0x100) as u8,
        (n / 0x1_0000 % 0x100) as u8,
        (n / 0x100_0000) as u8,
    ]
}

/// The bytes before the text of a command message: the type, the length of
/// the message, the length of the text.
pub const HEADER_LEN: usize = 9;

/// The message that carries a command: the type byte, the length of the
/// whole message and the length of the text, each as four bytes with the
/// least significant first, then the text.
pub open spec fn command_frame(text: Seq<u8>) -> Seq<u8>
    recommends
        text.len() + HEADER_LEN <= u32::MAX,
{
    seq![MessageType::Command.tag()] + u32_le((text.len() + HEADER_LEN) as u32) + u32_le(
        text.len() as u32,
    ) + text
}

/// Appends the four bytes of a number to the buffer, the least significant
/// first.
fn write_u32_le(buffer: &mut Vec<u8>, n: u32)
    ensures
        final(buffer)@ == old(buffer)@ + u32_le(n),
{
    buffer.push((n % 0x100) as u8);
    buffer.push((n / 0x100 % 0x100) as u8);
    buffer.push((n / 0x1_0000 % 0x100) as u8);
    buffer.push((n / 0x100_0000) as u8);
    assert(final(buffer)@ =~= old(buffer)@ + u32_le(n));
}

/// The path of a session's control socket. The editor keeps it under the
/// runtime directory where the environment names one, and else under a
/// directory of the user's in the directory for temporary files.
pub open spec fn socket_path_of(
    session: Seq<char>,
    runtime_dir: Option<Seq<char>>,
    tmp_dir: Seq<char>,
    user: Option<Seq<char>>,
) -> Option<Seq<char>> {
    match runtime_dir {
        Some(dir) => Some(dir + "/kakoune/"@ + session),
        None => match user {
            Some(name) => Some(tmp_dir + "/kakoune-"@ + name + "/"@ + session),
            None => None,
        },
    }
}

/// The view of an optional text.
pub open spec fn text_of(text: Option<&str>) -> Option<Seq<char>> {
    match text {
        Some(t) => Some(t@),
        None => None,
    }
}

/// A client of one Kakoune session.
pub struct Client {
    /// The message being put together.
    buffer: Vec<u8>,
    /// The path of the session's control socket.
    socket_path: String,
}

impl Client {
    /// The path of the session's control socket.
    pub closed spec fn path(&self) -> Seq<char> {
        self.socket_path@
    }

    /// The bytes of the message put together last.
    pub closed spec fn message(&self) -> Seq<u8> {
        self.buffer@
    }

    /// A client of the session `session`. `runtime_dir` is the runtime
    /// directory that the environment names, `tmp_dir` the directory for
    /// temporary files, `user` the user's name. Without a runtime directory
    /// and without a user's name the socket cannot be found.
    pub fn new(session: &str, runtime_dir: Option<&str>, tmp_dir: &str, user: Option<&str>) -> (client:
        Result<Client, Error>)
        ensures
            match socket_path_of(session@, text_of(runtime_dir), tmp_dir@, text_of(user)) {
                Some(path) => client matches Ok(c) && c.path() == path && c.message()
                    == Seq::<u8>::empty(),
                None => client == Err::<Client, Error>(Error::ConnectError),
            },
    {
        let mut socket_path = String::new();
        match runtime_dir {
            Some(dir) => {
                socket_path.push_str(dir);
                socket_path.push_str("/kakoune/");
            },
            None => match user {
                Some(name) => {
                    socket_path.push_str(tmp_dir);
                    socket_path.push_str("/kakoune-");
                    socket_path.push_str(name);
                    socket_path.push_str("/");
                },
                None => {
                    return Err(Error::ConnectError);
                },
            },
        }
        socket_path.push_str(session);
        Ok(Client { buffer: Vec::new(), socket_path })
    }

    pub fn socket_path(&self) -> (path: &str)
        ensures
            path@ == self.path(),
    {
        self.socket_path.as_str()
    }

    /// The bytes of the message put together last.
    pub fn buffer(&self) -> (bytes: &Vec<u8>)
        ensures
            bytes@ == self.message(),
    {
        &self.buffer
    }

    /// Puts together the message that carries the command `cmd`. A command
    /// too long for its message to have a length of 32 bits gives no
    /// message; the buffer is then empty.
    pub fn frame_command(&mut self, cmd: &str) -> (framed: bool)
        ensures
            framed == (cmd.spec_bytes().len() + HEADER_LEN <= u32::MAX),
            framed ==> final(self).message() == command_frame(cmd.spec_bytes()),
            !framed ==> final(self).message() == Seq::<u8>::empty(),
            final(self).path() == old(self).path(),
    {
        let text = cmd.as_bytes();
        self.buffer.clear();
        if text.len() > u32::MAX as usize - HEADER_LEN {
            return false;
        }
        let len: u32 = text.len() as u32;
        self.buffer.push(MessageType::Command.to_tag());
        write_u32_le(&mut self.buffer, len + HEADER_LEN as u32);
        write_u32_le(&mut self.buffer, len);
        let ghost head = self.buffer@;
        self.buffer.extend_from_slice(text);
        assert(self.buffer@ =~= head + text@);
        true
    }
}

} // verus!
