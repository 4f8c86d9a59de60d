//! What a guppy client decides, turn by turn: the request it sends, what
//! it acknowledges, when it resends, and when the response is whole. The
//! socket and the clock are the caller's.
use vstd::prelude::*;
use vstd::string::StringSliceAdditionalSpecFns;
use vstd::utf8::encode_utf8;

use crate::guppy::packet::{encode_ack, parse_packet, spec_parse_packet, wire, Packet, PacketModel};
use crate::guppy::reassembly::{ordered_body, Reassembly};
use crate::guppy::{GuppyResponse, GUPPY_PORT, MAX_REQUEST_BYTES};
use crate::text::{chars_of, concat, decimal, decimal_chars, eq_str, string_of};
use crate::urls::{parse_url, url_parse};

verus! {

broadcast use vstd::string::group_string_axioms;

/// Why a fetch failed before a response was whole.
#[derive(Debug)]
pub enum ClientError {
    BadUrl(String),
    RequestTooLong { request_bytes: usize, max: usize },
    Io(String),
    /// The overall deadline passed; only the end packet tells a whole
    /// response from a truncated one.
    Timeout,
    Protocol(String),
    BodyTooLarge { max: usize },
}

impl ClientError {
    /// A sentence saying what went wrong.
    pub fn to_string(&self) -> (r: String)
        ensures
            r@ == match self {
                ClientError::BadUrl(m) => "bad guppy URL: "@ + m@,
                ClientError::RequestTooLong { request_bytes, max } => "guppy request is "@
                    + decimal(*request_bytes as nat) + " bytes (max "@ + decimal(*max as nat)
                    + ")"@,
                ClientError::Io(m) => "guppy IO error: "@ + m@,
                ClientError::Timeout => "guppy transaction timed out"@,
                ClientError::Protocol(m) => "guppy protocol error: "@ + m@,
                ClientError::BodyTooLarge { max } => "guppy response exceeds "@ + decimal(
                    *max as nat,
                ) + " bytes"@,
            },
    {
        match self {
            ClientError::BadUrl(m) => concat("bad guppy URL: ", m.as_str()),
            ClientError::RequestTooLong { request_bytes, max } => {
                let a = string_of(decimal_chars(*request_bytes as u64).as_slice());
                let b = string_of(decimal_chars(*max as u64).as_slice());
                let s1 = concat("guppy request is ", a.as_str());
                let s2 = concat(s1.as_str(), " bytes (max ");
                let s3 = concat(s2.as_str(), b.as_str());
                concat(s3.as_str(), ")")
            },
            ClientError::Io(m) => concat("guppy IO error: ", m.as_str()),
            ClientError::Timeout => "guppy transaction timed out".to_string(),
            ClientError::Protocol(m) => concat("guppy protocol error: ", m.as_str()),
            ClientError::BodyTooLarge { max } => {
                let d = string_of(decimal_chars(*max as u64).as_slice());
                let a = concat("guppy response exceeds ", d.as_str());
                concat(a.as_str(), " bytes")
            },
        }
    }
}

/// Plans a fetch: the URL must be `guppy://` with a host; the port is
/// 6775 unless given; the request is the URL and CRLF, which must fit the
/// protocol's 2048 bytes.
pub fn plan_fetch(url: &str) -> (r: Result<(String, u16, String), ClientError>)
    ensures
        match url_parse(url@) {
            Err(e) => r matches Err(ClientError::BadUrl(m)) && m@ == e,
            Ok(u) => if u.0 != "guppy"@ {
                r matches Err(ClientError::BadUrl(m)) && m@ == "expected guppy:// scheme, got "@
                    + u.0 + "://"@
            } else {
                match u.1 {
                    None => r matches Err(ClientError::BadUrl(m)) && m@ == "URL has no host"@,
                    Some(h) => {
                        let req = url@ + seq!['\r', '\n'];
                        if encode_utf8(req).len() > MAX_REQUEST_BYTES {
                            r matches Err(ClientError::RequestTooLong { request_bytes: n, max })
                                && n == encode_utf8(req).len() && max == MAX_REQUEST_BYTES
                        } else {
                            r matches Ok((host, port, request)) && host@ == h && port == (match u.2 {
                                Some(p) => p,
                                None => GUPPY_PORT,
                            }) && request@ == req
                        }
                    },
                }
            },
        },
{
    let parts = match parse_url(url) {
        Ok(p) => p,
        Err(e) => return Err(ClientError::BadUrl(e)),
    };
    proof {
        reveal_strlit("guppy");
    }
    if !eq_str(chars_of(parts.scheme.as_str()).as_slice(), "guppy") {
        let a = concat("expected guppy:// scheme, got ", parts.scheme.as_str());
        return Err(ClientError::BadUrl(concat(a.as_str(), "://")));
    }
    let host = match &parts.host {
        Some(h) => h.clone(),
        None => return Err(ClientError::BadUrl("URL has no host".to_string())),
    };
    let port = match parts.port {
        Some(p) => p,
        None => GUPPY_PORT,
    };
    proof {
        reveal_strlit("\r\n");
        assert("\r\n"@ =~= seq!['\r', '\n']);
    }
    let request = concat(url, "\r\n");
    let rs = request.as_str();
    let n = rs.as_bytes().len();
    assert(rs.spec_bytes() == encode_utf8(request@));
    if n > MAX_REQUEST_BYTES {
        return Err(ClientError::RequestTooLong { request_bytes: n, max: MAX_REQUEST_BYTES });
    }
    Ok((host, port, request))
}

/// What the client checks at the top of each turn: a whole response is
/// handed back; a response over the size limit is refused; otherwise the
/// exchange goes on.
pub fn settle(state: &Option<Reassembly>, max_body: usize) -> (r: Option<
    Result<GuppyResponse, ClientError>,
>)
    requires
        *state matches Some(s) ==> s.well_formed(),
    ensures
        match *state {
            None => r is None,
            Some(s) => if s.eof_seq == Some((s.contiguous_end + 1) as u32) && s.contiguous_end
                < u32::MAX {
                r matches Some(Ok(GuppyResponse::Success { mime, body })) && mime == s.mime
                    && body@ == ordered_body(s.chunks@)
            } else if s.buffered > max_body {
                r matches Some(Err(ClientError::BodyTooLarge { max })) && max == max_body
            } else {
                r is None
            },
        },
{
    match state {
        None => None,
        Some(s) => {
            if s.complete() {
                let body = s.body();
                Some(Ok(GuppyResponse::Success { mime: s.mime.clone(), body }))
            } else if s.buffered > max_body {
                Some(Err(ClientError::BodyTooLarge { max: max_body }))
            } else {
                None
            }
        },
    }
}

/// What the client sends when nothing has arrived for a while: the request
/// again if the response has not started, else an acknowledgement of the
/// stall point and, once seen, of the end.
pub fn on_silence(state: &Option<Reassembly>, request: &str) -> (r: Vec<Vec<u8>>)
    ensures
        match *state {
            None => r@.len() == 1 && r@[0]@ == encode_utf8(request@),
            Some(s) => match s.eof_seq {
                None => r@.len() == 1 && r@[0]@ == wire(decimal(s.contiguous_end as nat), seq![]),
                Some(e) => r@.len() == 2 && r@[0]@ == wire(decimal(s.contiguous_end as nat), seq![])
                    && r@[1]@ == wire(decimal(e as nat), seq![]),
            },
        },
{
    let mut out: Vec<Vec<u8>> = Vec::new();
    match state {
        None => {
            let mut v: Vec<u8> = Vec::new();
            crate::bytes::append_bytes(&mut v, request.as_bytes());
            out.push(v);
        },
        Some(s) => {
            out.push(encode_ack(s.contiguous_end));
            match s.eof_seq {
                Some(e) => out.push(encode_ack(e)),
                None => {},
            }
        },
    }
    out
}

/// What a datagram does to the exchange: the replies to send, and the
/// response when it ends the exchange.
pub struct Turn {
    pub send: Vec<Vec<u8>>,
    pub done: Option<GuppyResponse>,
}

/// Takes in a datagram from the server. A malformed one is ignored. A
/// prompt, redirect or error is the whole response, unless a success has
/// begun, in which case it is stray. A first packet is always
/// acknowledged and begins the reassembly if none has begun. A
/// continuation needs a begun reassembly and a number after the first;
/// it is acknowledged, and its data kept, or its emptiness taken as the
/// end.
pub fn on_datagram(state: &mut Option<Reassembly>, datagram: &[u8]) -> (r: Turn)
    requires
        *old(state) matches Some(s) ==> s.well_formed() && s.buffered + datagram@.len()
            <= usize::MAX,
    ensures
        *final(state) matches Some(s) ==> s.well_formed(),
        match spec_parse_packet(datagram@) {
            Err(_) => r.send@.len() == 0 && r.done is None && *final(state) == *old(state),
            Ok(p) => match p {
                PacketModel::Prompt { text } => if *old(state) is None {
                    r.send@.len() == 0 && (r.done matches Some(GuppyResponse::Prompt { text: t })
                        && t@ == text)
                } else {
                    r.send@.len() == 0 && r.done is None && *final(state) == *old(state)
                },
                PacketModel::Redirect { target } => if *old(state) is None {
                    r.send@.len() == 0 && (r.done matches Some(GuppyResponse::Redirect { target: t })
                        && t@ == target)
                } else {
                    r.send@.len() == 0 && r.done is None && *final(state) == *old(state)
                },
                PacketModel::Error { message } => if *old(state) is None {
                    r.send@.len() == 0 && (r.done matches Some(GuppyResponse::Error { message: t })
                        && t@ == message)
                } else {
                    r.send@.len() == 0 && r.done is None && *final(state) == *old(state)
                },
                PacketModel::First { seq, mime, data } => {
                    &&& r.done is None
                    &&& r.send@.len() == 1 && r.send@[0]@ == wire(decimal(seq as nat), seq![])
                    &&& match *old(state) {
                        Some(_) => *final(state) == *old(state),
                        None => *final(state) matches Some(s) && s.first_seq == seq && s.mime@
                            == mime && s.contiguous_end == seq && s.eof_seq is None && s.buffered
                            == data.len() && s.chunks@.dom() == set![seq] && s.chunks@[seq]@
                            == data,
                    }
                },
                PacketModel::Continuation { seq, data } => match *old(state) {
                    None => r.send@.len() == 0 && r.done is None && *final(state) == *old(state),
                    Some(s) => if seq <= s.first_seq {
                        r.send@.len() == 0 && r.done is None && *final(state) == *old(state)
                    } else {
                        &&& r.done is None
                        &&& r.send@.len() == 1 && r.send@[0]@ == wire(decimal(seq as nat), seq![])
                        &&& *final(state) matches Some(f)
                        &&& f.first_seq == s.first_seq && f.mime == s.mime
                        &&& if data.len() == 0 {
                            f.eof_seq == Some(seq) && f.chunks == s.chunks && f.contiguous_end
                                == s.contiguous_end && f.buffered == s.buffered
                        } else {
                            &&& f.eof_seq == s.eof_seq
                            &&& f.buffered == s.buffered + data.len()
                            &&& f.chunks@.dom() == s.chunks@.dom().insert(seq)
                            &&& forall|k: u32| #[trigger]
                                s.chunks@.contains_key(k) ==> f.chunks@[k] == s.chunks@[k]
                            &&& !s.chunks@.contains_key(seq) ==> f.chunks@[seq]@ == data
                        }
                    },
                },
            },
        },
{
    let packet = match parse_packet(datagram) {
        Ok(p) => p,
        Err(_) => return Turn { send: Vec::new(), done: None },
    };
    proof {
        lemma_data_within(datagram@);
    }
    match packet {
        Packet::Prompt { text } => {
            if state.is_none() {
                return Turn { send: Vec::new(), done: Some(GuppyResponse::Prompt { text }) };
            }
            Turn { send: Vec::new(), done: None }
        },
        Packet::Redirect { target } => {
            if state.is_none() {
                return Turn { send: Vec::new(), done: Some(GuppyResponse::Redirect { target }) };
            }
            Turn { send: Vec::new(), done: None }
        },
        Packet::Error { message } => {
            if state.is_none() {
                return Turn { send: Vec::new(), done: Some(GuppyResponse::Error { message }) };
            }
            Turn { send: Vec::new(), done: None }
        },
        Packet::First { seq, mime, data } => {
            let mut send: Vec<Vec<u8>> = Vec::new();
            send.push(encode_ack(seq));
            if state.is_none() {
                let r = Reassembly::start(seq, mime, data);
                proof {
                    assert(r.chunks@.dom() =~= set![seq]);
                }
                *state = Some(r);
            }
            Turn { send, done: None }
        },
        Packet::Continuation { seq, data } => {
            match state {
                None => Turn { send: Vec::new(), done: None },
                Some(s) => {
                    if seq <= s.first_seq {
                        return Turn { send: Vec::new(), done: None };
                    }
                    let mut send: Vec<Vec<u8>> = Vec::new();
                    send.push(encode_ack(seq));
                    if data.len() == 0 {
                        s.eof_seq = Some(seq);
                    } else {
                        let ghost before = s.chunks@;
                        s.insert(seq, data);
                        proof {
                            assert(s.chunks@.dom() =~= before.dom().insert(seq));
                        }
                    }
                    Turn { send, done: None }
                },
            }
        },
    }
}

/// A packet's data is no longer than the datagram that carried it.
proof fn lemma_data_within(d: Seq<u8>)
    ensures
        spec_parse_packet(d) matches Ok(PacketModel::First { data, .. }) ==> data.len() <= d.len(),
        spec_parse_packet(d) matches Ok(PacketModel::Continuation { data, .. }) ==> data.len()
            <= d.len(),
{
    crate::bytes::lemma_find_crlf(d);
}

} // verus!
