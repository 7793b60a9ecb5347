//! The decisions of the interactive client: what is sent for a typed line, how
//! a command is framed, when the session ends, and how a reply is taken.
use vstd::prelude::*;
use vstd::utf8::encode_utf8;
use crate::text::{chars_eq_ignore_ascii_case, chars_of, eq_ignore_ascii_case, string_from_chars, trim, trim_chars};

verus! {

/// The prompt shown before each command.
pub const PROMPT: &'static str = "ypfinancialmarket>";

/// The command the client ends its session with.
pub const EXIT_COMMAND: &'static str = "EXIT";

/// Why a command got no reply.
#[derive(PartialEq, Eq, Structural, Clone, Copy, Debug)]
pub enum ClientError {
    /// The server closed the connection: reading the reply gave no bytes.
    ServerClosed,
}

/// The command sent for a typed line: the line trimmed; nothing for a blank line.
pub fn command_for_input(input: &str) -> (r: Option<String>)
    ensures
        match r {
            Some(c) => trim(input@).len() > 0 && c@ == trim(input@),
            None => trim(input@).len() == 0,
        },
{
    let chars = chars_of(input);
    let trimmed = trim_chars(&chars);
    if trimmed.len() == 0 {
        None
    } else {
        Some(string_from_chars(&trimmed))
    }
}

/// The bytes written for a command: its UTF-8 text, then a newline.
pub fn command_bytes(command: &str) -> (r: Vec<u8>)
    ensures
        r@ == encode_utf8(command@).push(10u8),
{
    let mut r = vstd::slice::slice_to_vec(command.as_bytes());
    r.push(10u8);
    r
}

/// Whether the command ends the session: `EXIT` in any mix of ASCII cases.
pub fn is_exit(command: &str) -> (r: bool)
    ensures
        r == eq_ignore_ascii_case(command@, EXIT_COMMAND@),
{
    let chars = chars_of(command);
    chars_eq_ignore_ascii_case(&chars, EXIT_COMMAND)
}

/// The reply to a command, given how many bytes reading its first line gave:
/// none means the server closed the connection.
pub fn take_reply(bytes_read: usize, line: String) -> (r: Result<String, ClientError>)
    ensures
        bytes_read == 0 ==> r == Err::<String, ClientError>(ClientError::ServerClosed),
        bytes_read != 0 ==> (r matches Ok(s) && s@ == line@),
{
    if bytes_read == 0 {
        Err(ClientError::ServerClosed)
    } else {
        Ok(line)
    }
}

} // verus!
