//! The operator's side of a running node: the command that comes in over
//! the local connection, and the lines of the interactive console.

use crate::bencode::lit;
use crate::fileset::bytes_eq;
use crate::netcommand::{
    decode_cli_command, enc_cli_command, lemma_cli_command_not_empty, lemma_decode_cli_command,
    CliCommand, CliCommandView,
};
use vstd::prelude::*;
use vstd::slice::{slice_subrange, slice_to_vec};
use vstd::string::*;
use vstd::utf8::encode_utf8;

verus! {

/// Takes the operator's commands from the local connection.
pub struct CliInterface();

/// The command that the lines of a connection carry: the first line, as
/// long as it is not empty, read as the wire form of a command.
pub open spec fn connection_command(lines: Seq<String>) -> Option<CliCommandView> {
    if lines.len() == 0 || lines[0]@.len() == 0 {
        None
    } else {
        decode_cli_command(encode_utf8(lines[0]@))
    }
}

impl CliInterface {
    /// Reads the command of one connection from the lines that came over
    /// it: the command whose wire form the first line is, with the path it
    /// names or without one. Lines that carry no command give nothing.
    pub fn handle_connection(&self, lines: &Vec<String>) -> (res: Option<CliCommand>)
        ensures
            match res {
                Some(c) => connection_command(lines@) == Some(c@),
                None => connection_command(lines@) is None,
            },
    {
        if lines.len() == 0 || lines[0].as_str().is_empty() {
            return None;
        }
        CliCommand::from_bytes(lines[0].as_str().as_bytes_vec())
    }
}

/// The command of a connection is the command that was sent: where the
/// first line is the wire form of a command, exactly that command is read,
/// and a push that names no path is never read as a push of a path.
pub proof fn lemma_connection_carries_command(lines: Seq<String>, c: CliCommandView)
    requires
        lines.len() > 0,
        encode_utf8(lines[0]@) == enc_cli_command(c.push),
    ensures
        connection_command(lines) == Some(c),
{
    lemma_decode_cli_command(c);
    lemma_cli_command_not_empty(c);
    if lines[0]@.len() == 0 {
        assert(encode_utf8(lines[0]@).len() == 0);
    }
}

/// A line of the console that was understood.
#[derive(Debug, Clone, PartialEq, Eq)]
pub enum InputCommand {
    /// Look a record up.
    Get { key: Vec<u8> },
    /// Ask who provides a key.
    GetProviders { key: Vec<u8> },
    /// Put a record.
    Put { key: Vec<u8>, value: Vec<u8> },
    /// Announce this node as provider of a key.
    PutProvider { key: Vec<u8> },
}

/// A line of the console that was understood, as mathematical values.
pub enum InputView {
    Get { key: Seq<u8> },
    GetProviders { key: Seq<u8> },
    Put { key: Seq<u8>, value: Seq<u8> },
    PutProvider { key: Seq<u8> },
}

impl View for InputCommand {
    type V = InputView;

    open spec fn view(&self) -> InputView {
        match self {
            InputCommand::Get { key } => InputView::Get { key: key@ },
            InputCommand::GetProviders { key } => InputView::GetProviders { key: key@ },
            InputCommand::Put { key, value } => InputView::Put { key: key@, value: value@ },
            InputCommand::PutProvider { key } => InputView::PutProvider { key: key@ },
        }
    }
}

/// Why a line of the console was not understood.
#[derive(Debug, Clone, Copy, PartialEq, Eq, Structural)]
pub enum InputError {
    /// The command needs a key and the line ends before one.
    ExpectedKey,
    /// The command needs a value and the line ends before one.
    ExpectedValue,
    /// The line begins with none of `GET`, `GET_PROVIDERS`, `PUT` and
    /// `PUT_PROVIDER`.
    UnknownCommand,
}

/// How many bytes stand before the first space of `s`; all of them where
/// there is no space.
pub open spec fn first_space(s: Seq<u8>) -> int
    decreases s.len(),
{
    if s.len() == 0 || s[0] == 32 {
        0
    } else {
        1 + first_space(s.skip(1))
    }
}

/// The `k`-th of the words that single spaces separate in `s`. Two spaces in
/// a row have an empty word between them, and a line that ends in a space
/// ends in an empty word.
pub open spec fn word(s: Seq<u8>, k: nat) -> Option<Seq<u8>>
    decreases k,
{
    let i = first_space(s);
    if k == 0 {
        Some(s.take(i))
    } else if i >= s.len() {
        None
    } else {
        word(s.skip(i + 1), (k - 1) as nat)
    }
}

/// What a line of the console asks for. The first word names the command,
/// the second is the key, and for `PUT` the third is the value.
pub open spec fn parse_line(s: Seq<u8>) -> Result<InputView, InputError> {
    let command = word(s, 0).unwrap();
    if command == lit("GET") {
        match word(s, 1) {
            Some(key) => Ok(InputView::Get { key }),
            None => Err(InputError::ExpectedKey),
        }
    } else if command == lit("GET_PROVIDERS") {
        match word(s, 1) {
            Some(key) => Ok(InputView::GetProviders { key }),
            None => Err(InputError::ExpectedKey),
        }
    } else if command == lit("PUT") {
        match word(s, 1) {
            Some(key) => match word(s, 2) {
                Some(value) => Ok(InputView::Put { key, value }),
                None => Err(InputError::ExpectedValue),
            },
            None => Err(InputError::ExpectedKey),
        }
    } else if command == lit("PUT_PROVIDER") {
        match word(s, 1) {
            Some(key) => Ok(InputView::PutProvider { key }),
            None => Err(InputError::ExpectedKey),
        }
    } else {
        Err(InputError::UnknownCommand)
    }
}

proof fn lemma_first_space_bounds(s: Seq<u8>)
    ensures
        0 <= first_space(s) <= s.len(),
        first_space(s) < s.len() ==> s[first_space(s)] == 32,
        forall|j: int| 0 <= j < first_space(s) ==> s[j] != 32,
    decreases s.len(),
{
    if s.len() == 0 || s[0] == 32 {
    } else {
        lemma_first_space_bounds(s.skip(1));
        assert forall|j: int| 0 <= j < first_space(s) implies s[j] != 32 by {
            if j > 0 {
                assert(s.skip(1)[j - 1] == s[j]);
            }
        }
    }
}

proof fn lemma_first_space_is(s: Seq<u8>, i: int)
    requires
        0 <= i <= s.len(),
        i < s.len() ==> s[i] == 32,
        forall|j: int| 0 <= j < i ==> s[j] != 32,
    ensures
        first_space(s) == i,
{
    lemma_first_space_bounds(s);
}

/// Where the word ends that begins at `from`.
fn word_end(buf: &[u8], from: usize) -> (res: usize)
    requires
        from <= buf.len(),
    ensures
        from <= res <= buf.len(),
        res == from + first_space(buf@.skip(from as int)),
{
    let mut i: usize = from;
    while i < buf.len() && buf[i] != 32
        invariant
            from <= i <= buf.len(),
            forall|j: int| from <= j < i ==> buf@[j] != 32,
        decreases buf.len() - i,
    {
        i += 1;
    }
    proof {
        lemma_first_space_is(buf@.skip(from as int), i - from);
    }
    i
}

/// The word that begins at `from`, and where the next one begins, if there
/// is a next one.
fn next_word(buf: &[u8], from: usize) -> (res: (Vec<u8>, Option<usize>))
    requires
        from <= buf.len(),
    ensures
        Some(res.0@) == word(buf@.skip(from as int), 0),
        match res.1 {
            Some(next) => next <= buf.len() && first_space(buf@.skip(from as int)) < buf@.skip(
                from as int,
            ).len() && buf@.skip(next as int) == buf@.skip(from as int).skip(
                first_space(buf@.skip(from as int)) + 1,
            ),
            None => first_space(buf@.skip(from as int)) >= buf@.skip(from as int).len(),
        },
{
    let end = word_end(buf, from);
    let text = slice_to_vec(slice_subrange(buf, from, end));
    proof {
        assert(text@ =~= buf@.skip(from as int).take(end - from));
    }
    if end < buf.len() {
        proof {
            assert(buf@.skip(end + 1) =~= buf@.skip(from as int).skip(end - from + 1));
        }
        (text, Some(end + 1))
    } else {
        (text, None)
    }
}

/// Reads one line of the console.
pub fn handle_input_line(line: &String) -> (res: Result<InputCommand, InputError>)
    ensures
        match res {
            Ok(c) => parse_line(encode_utf8(line@)) == Ok::<InputView, InputError>(c@),
            Err(e) => parse_line(encode_utf8(line@)) == Err::<InputView, InputError>(e),
        },
{
    let buf = line.as_str().as_bytes();
    let ghost s = buf@;
    proof {
        reveal_with_fuel(word, 3);
        assert(s.skip(0) =~= s);
    }
    let (command, rest) = next_word(buf, 0);
    let second: Option<(Vec<u8>, Option<usize>)> = match rest {
        Some(from) => Some(next_word(buf, from)),
        None => None,
    };
    proof {
        assert(second is Some ==> Some(second.unwrap().0@) == word(s, 1));
        assert(second is None ==> word(s, 1) is None);
    }
    let is_put = bytes_eq(command.as_slice(), "PUT".as_bytes());
    if bytes_eq(command.as_slice(), "GET".as_bytes()) {
        match second {
            Some((key, _)) => Ok(InputCommand::Get { key }),
            None => Err(InputError::ExpectedKey),
        }
    } else if bytes_eq(command.as_slice(), "GET_PROVIDERS".as_bytes()) {
        match second {
            Some((key, _)) => Ok(InputCommand::GetProviders { key }),
            None => Err(InputError::ExpectedKey),
        }
    } else if is_put {
        match second {
            Some((key, after)) => {
                match after {
                    Some(from) => {
                        let (value, _) = next_word(buf, from);
                        proof {
                            assert(Some(value@) == word(s, 2));
                        }
                        Ok(InputCommand::Put { key, value })
                    },
                    None => {
                        proof {
                            assert(word(s, 2) is None);
                        }
                        Err(InputError::ExpectedValue)
                    },
                }
            },
            None => Err(InputError::ExpectedKey),
        }
    } else if bytes_eq(command.as_slice(), "PUT_PROVIDER".as_bytes()) {
        match second {
            Some((key, _)) => Ok(InputCommand::PutProvider { key }),
            None => Err(InputError::ExpectedKey),
        }
    } else {
        Err(InputError::UnknownCommand)
    }
}

} // verus!
