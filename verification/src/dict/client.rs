//! What a DICT client decides at each step of a session: the command lines
//! it sends, what each status line it reads calls for next, and what a
//! failure is reported as. The connection is the caller's.
use vstd::prelude::*;
use vstd::string::StringSliceAdditionalSpecFns;
use vstd::utf8::encode_utf8;

use crate::dict::wire::{
    is_terminator, lone_period, parse_definition_header, parse_status, spec_parse_status,
    spec_quote, spec_split_params, spec_unstuff, quote, unstuff, Status, BANNER,
    DEFINITIONS_FOLLOW, DEFINITION_FOLLOWS, MAX_LINE, NO_MATCH,
};
use crate::text::{
    chars_of, concat, debug_quoted, debug_string, decimal, decimal_chars, slice_chars, string_of,
    trim_end_crlf, trim_end_crlf_at,
};

verus! {

broadcast use vstd::string::group_string_axioms;

/// Why a session failed.
#[derive(Clone, Debug, PartialEq, Eq)]
pub enum ClientError {
    Connect(String),
    Io(String),
    /// The server broke the protocol.
    Protocol(String),
    /// The server answered a command with a failure status.
    Refused { code: u16, text: String },
}

impl ClientError {
    /// A sentence saying what went wrong.
    pub fn to_string(&self) -> (r: String)
        ensures
            r@ == match self {
                ClientError::Connect(m) => "connect: "@ + m@,
                ClientError::Io(m) => "io: "@ + m@,
                ClientError::Protocol(m) => "protocol: "@ + m@,
                ClientError::Refused { code, text } => "server refused: "@ + decimal(
                    *code as nat,
                ) + " "@ + text@,
            },
    {
        match self {
            ClientError::Connect(m) => concat("connect: ", m.as_str()),
            ClientError::Io(m) => concat("io: ", m.as_str()),
            ClientError::Protocol(m) => concat("protocol: ", m.as_str()),
            ClientError::Refused { code, text } => {
                let d = string_of(decimal_chars(*code as u64).as_slice());
                let a = concat("server refused: ", d.as_str());
                let b = concat(a.as_str(), " ");
                concat(b.as_str(), text.as_str())
            },
        }
    }
}

/// A failure status, as the error it is reported as.
pub fn refused(status: Status) -> (r: ClientError)
    ensures
        r matches ClientError::Refused { code, text } && code == status.code && text@
            == status.text@,
{
    ClientError::Refused { code: status.code, text: status.text }
}

/// A command as sent: the line and CRLF, refused when the whole would be
/// over the protocol's 1024 bytes.
pub fn command_line(line: &str) -> (r: Result<String, ClientError>)
    ensures
        if encode_utf8(line@).len() + 2 > MAX_LINE {
            r matches Err(ClientError::Protocol(m)) && m@ == "command exceeds 1024 bytes"@
        } else {
            r matches Ok(s) && s@ == line@ + seq!['\r', '\n']
        },
{
    let n = line.as_bytes().len();
    assert(line.spec_bytes() == encode_utf8(line@));
    if n > MAX_LINE - 2 {
        return Err(ClientError::Protocol("command exceeds 1024 bytes".to_string()));
    }
    proof {
        reveal_strlit("\r\n");
        assert("\r\n"@ =~= seq!['\r', '\n']);
    }
    Ok(concat(line, "\r\n"))
}

/// Reads a status line, or says that it is not one.
pub fn status_line(line: &str) -> (r: Result<Status, ClientError>)
    ensures
        match spec_parse_status(line@) {
            Some((code, text)) => r matches Ok(s) && s.code == code && s.text@ == text,
            None => r matches Err(ClientError::Protocol(m)) && m@ == "not a status line: "@
                + debug_quoted(line@),
        },
{
    match parse_status(line) {
        Some(s) => Ok(s),
        None => {
            let shown = debug_string(line);
            Err(ClientError::Protocol(concat("not a status line: ", shown.as_str())))
        },
    }
}

/// A session opens with a `220` banner.
pub fn check_banner(banner: Status) -> (r: Result<Status, ClientError>)
    ensures
        if banner.code == BANNER {
            r matches Ok(s) && s == banner
        } else {
            r matches Err(ClientError::Protocol(m)) && m@ == "expected a 220 banner, got "@
                + decimal(banner.code as nat) + " "@ + banner.text@
        },
{
    if banner.code == BANNER {
        return Ok(banner);
    }
    let d = string_of(decimal_chars(banner.code as u64).as_slice());
    let a = concat("expected a 220 banner, got ", d.as_str());
    let b = concat(a.as_str(), " ");
    Err(ClientError::Protocol(concat(b.as_str(), banner.text.as_str())))
}

/// The end of a text block, or one of its lines with its line ending gone
/// and its dot-stuffing undone.
pub fn block_line(line: &str) -> (r: Option<String>)
    ensures
        if trim_end_crlf(line@) == lone_period() {
            r is None
        } else {
            r matches Some(s) && s@ == spec_unstuff(trim_end_crlf(line@))
        },
{
    if is_terminator(line) {
        return None;
    }
    let all = chars_of(line);
    let end = trim_end_crlf_at(all.as_slice());
    let trimmed = string_of(slice_chars(all.as_slice(), 0, end).as_slice());
    Some(unstuff(trimmed.as_str()).to_string())
}

/// What a command's first status calls for.
#[derive(Clone, Copy, Debug, PartialEq, Eq, Structural)]
pub enum Answer {
    /// A text block follows.
    Listing,
    /// Nothing matched: an empty answer, not an error.
    Nothing,
}

/// Reads a command's first status: `listing` means a text block follows,
/// `nothing` an empty answer; any other code refuses.
pub fn answer(status: Status, listing: u16, nothing: u16) -> (r: Result<Answer, ClientError>)
    ensures
        if status.code == listing {
            r matches Ok(a) && a == Answer::Listing
        } else if status.code == nothing {
            r matches Ok(a) && a == Answer::Nothing
        } else {
            r matches Err(ClientError::Refused { code, text }) && code == status.code && text@
                == status.text@
        },
{
    if status.code == listing {
        Ok(Answer::Listing)
    } else if status.code == nothing {
        Ok(Answer::Nothing)
    } else {
        Err(refused(status))
    }
}

/// The status after a text block must be a success.
pub fn expect_ok(status: Status) -> (r: Result<(), ClientError>)
    ensures
        if 200 <= status.code < 300 {
            r is Ok
        } else {
            r matches Err(ClientError::Refused { code, text }) && code == status.code && text@
                == status.text@
        },
{
    if status.is_success() {
        Ok(())
    } else {
        Err(refused(status))
    }
}

/// `DEFINE`, with the database and word quoted where they must be.
pub fn define_command(database: &str, word: &str) -> (r: String)
    ensures
        r@ == "DEFINE "@ + spec_quote(database@) + " "@ + spec_quote(word@),
{
    let a = concat("DEFINE ", quote(database).as_str());
    let b = concat(a.as_str(), " ");
    concat(b.as_str(), quote(word).as_str())
}

/// `MATCH`, with the database, strategy and word quoted where they must be.
pub fn match_command(database: &str, strategy: &str, word: &str) -> (r: String)
    ensures
        r@ == "MATCH "@ + spec_quote(database@) + " "@ + spec_quote(strategy@) + " "@
            + spec_quote(word@),
{
    let a = concat("MATCH ", quote(database).as_str());
    let b = concat(a.as_str(), " ");
    let c = concat(b.as_str(), quote(strategy).as_str());
    let d = concat(c.as_str(), " ");
    concat(d.as_str(), quote(word).as_str())
}

/// `CLIENT`, announcing the client.
pub fn client_command(text: &str) -> (r: String)
    ensures
        r@ == "CLIENT "@ + text@,
{
    concat("CLIENT ", text)
}

/// What a status inside a `DEFINE` answer calls for.
#[derive(Clone, Debug, PartialEq, Eq)]
pub enum DefineStep {
    /// A `151`: a definition's word, database and database name; its text
    /// block follows.
    Definition { word: String, database: String, description: String },
    /// A success: the answer is over.
    Done,
}

/// Reads a status inside a `DEFINE` answer: a `151` must name the word and
/// database; any success ends the answer; anything else refuses.
pub fn define_step(status: Status) -> (r: Result<DefineStep, ClientError>)
    ensures
        if status.code == DEFINITION_FOLLOWS {
            let p = spec_split_params(status.text@);
            if p.len() >= 2 {
                r matches Ok(DefineStep::Definition { word, database, description }) && word@
                    == p[0] && database@ == p[1] && description@ == (if p.len() > 2 {
                    p[2]
                } else {
                    seq![]
                })
            } else {
                r matches Err(ClientError::Protocol(m)) && m@ == "malformed 151: "@
                    + status.text@
            }
        } else if 200 <= status.code < 300 {
            r matches Ok(DefineStep::Done)
        } else {
            r matches Err(ClientError::Refused { code, text }) && code == status.code && text@
                == status.text@
        },
{
    if status.code == DEFINITION_FOLLOWS {
        match parse_definition_header(&status) {
            Some((word, database, description)) => Ok(
                DefineStep::Definition { word, database, description },
            ),
            None => Err(ClientError::Protocol(concat("malformed 151: ", status.text.as_str()))),
        }
    } else if status.is_success() {
        Ok(DefineStep::Done)
    } else {
        Err(refused(status))
    }
}

/// The error a stream that ends inside a response is reported as.
pub fn closed_mid_response() -> (r: ClientError)
    ensures
        r matches ClientError::Protocol(m) && m@ == "server closed mid-response"@,
{
    ClientError::Protocol("server closed mid-response".to_string())
}

} // verus!
