//! Turns an inbound characteristic write into a command, and builds the
//! replies that go back over the notify channel.
//!
//! An inbound message is `[command, reply_id, params...]`; a reply is
//! `[reply_id, status, payload...]`, with the status as a single byte.
use crate::codec::{
    byte_views, encode_frames, frames_bytes, parse_payload, parsed_payload, texts, utf8_fields,
};
use crate::text::{contains_text, text_contains, text_is};
use vstd::prelude::*;
use vstd::utf8::encode_utf8;

verus! {

pub const CMD_SCAN_WIFI: &'static str = "scan_wifi";

pub const CMD_CONNECT_WIFI: &'static str = "connect_wifi";

pub const CMD_GET_INFO: &'static str = "get_info";

pub const CMD_SET_TIME: &'static str = "set_time";

/// The word in a Wi-Fi tool's failure text that marks a rejected password.
pub const WRONG_PASSWORD_MARK: &'static str = "password";

/// Status byte of a reply.
#[derive(Clone, Copy, Debug, PartialEq, Eq, Structural)]
pub enum StatusCode {
    Success,
    WrongCredential,
    Unknown,
}

impl StatusCode {
    pub open spec fn spec_byte(self) -> u8 {
        match self {
            StatusCode::Success => 0,
            StatusCode::WrongCredential => 1,
            StatusCode::Unknown => 255,
        }
    }

    /// The byte that carries this status on the wire.
    pub fn byte(&self) -> (r: u8)
        ensures
            r == self.spec_byte(),
    {
        match self {
            StatusCode::Success => 0,
            StatusCode::WrongCredential => 1,
            StatusCode::Unknown => 255,
        }
    }
}

/// Why an inbound write gets neither an action nor a reply.
#[derive(Clone, Copy, Debug, PartialEq, Eq, Structural)]
pub enum Discarded {
    /// The bytes do not frame a list of text fields.
    Malformed,
    /// Fewer than two fields: there is no reply id to answer to.
    TooFewFields,
    /// A known command without the parameters it needs.
    MissingParams,
    /// The first field names no command.
    UnknownCommand,
}

/// What an inbound write asks for.
#[derive(Debug)]
pub enum Command {
    ScanWifi { reply_id: String },
    ConnectWifi { reply_id: String, ssid: String, password: String },
    GetInfo { reply_id: String },
    SetTime { timezone: String, time: String },
    Discard(Discarded),
}

/// The command that a write of `buf` asks for.
pub open spec fn command_of(buf: Seq<u8>, c: Command) -> bool {
    match parsed_payload(buf) {
        None => c == Command::Discard(Discarded::Malformed),
        Some(f) => {
            if f.len() < 2 {
                c == Command::Discard(Discarded::TooFewFields)
            } else if f[0] == CMD_SCAN_WIFI@ {
                c matches Command::ScanWifi { reply_id } && reply_id@ == f[1]
            } else if f[0] == CMD_CONNECT_WIFI@ {
                if f.len() < 4 {
                    c == Command::Discard(Discarded::MissingParams)
                } else {
                    c matches Command::ConnectWifi { reply_id, ssid, password } && reply_id@
                        == f[1] && ssid@ == f[2] && password@ == f[3]
                }
            } else if f[0] == CMD_GET_INFO@ {
                c matches Command::GetInfo { reply_id } && reply_id@ == f[1]
            } else if f[0] == CMD_SET_TIME@ {
                if f.len() < 4 {
                    c == Command::Discard(Discarded::MissingParams)
                } else {
                    c matches Command::SetTime { timezone, time } && timezone@ == f[2] && time@
                        == f[3]
                }
            } else {
                c == Command::Discard(Discarded::UnknownCommand)
            }
        },
    }
}

/// Decodes an inbound write into the command it asks for. Commands match
/// by exact, case-sensitive name.
pub fn decode_command(data: &[u8]) -> (r: Command)
    ensures
        command_of(data@, r),
{
    let vals = match parse_payload(data) {
        None => {
            return Command::Discard(Discarded::Malformed);
        },
        Some(v) => v,
    };
    proof {
        assert(texts(vals@).len() == vals@.len());
    }
    if vals.len() < 2 {
        return Command::Discard(Discarded::TooFewFields);
    }
    let ghost f = texts(vals@);
    assert(f[0] == vals@[0]@ && f[1] == vals@[1]@);
    let cmd = vals[0].as_str();
    let reply_id = vals[1].clone();
    if text_is(cmd, CMD_SCAN_WIFI) {
        Command::ScanWifi { reply_id }
    } else if text_is(cmd, CMD_CONNECT_WIFI) {
        if vals.len() < 4 {
            return Command::Discard(Discarded::MissingParams);
        }
        assert(f[2] == vals@[2]@ && f[3] == vals@[3]@);
        Command::ConnectWifi { reply_id, ssid: vals[2].clone(), password: vals[3].clone() }
    } else if text_is(cmd, CMD_GET_INFO) {
        Command::GetInfo { reply_id }
    } else if text_is(cmd, CMD_SET_TIME) {
        if vals.len() < 4 {
            return Command::Discard(Discarded::MissingParams);
        }
        assert(f[2] == vals@[2]@ && f[3] == vals@[3]@);
        Command::SetTime { timezone: vals[2].clone(), time: vals[3].clone() }
    } else {
        Command::Discard(Discarded::UnknownCommand)
    }
}

/// The bytes of the reply `[reply_id, status, payload...]`.
pub open spec fn reply_bytes(reply_id: Seq<char>, status: StatusCode, payload: Seq<Seq<char>>) -> Seq<
    u8,
> {
    frames_bytes(seq![encode_utf8(reply_id), seq![status.spec_byte()]] + utf8_fields(payload))
}

/// Frames the reply `[reply_id, status, payload...]`.
pub fn encode_reply(reply_id: &str, status: StatusCode, payload: &Vec<String>) -> (r: Vec<u8>)
    ensures
        r@ == reply_bytes(reply_id@, status, texts(payload@)),
{
    let mut fields: Vec<Vec<u8>> = Vec::new();
    fields.push(vstd::slice::slice_to_vec(reply_id.as_bytes()));
    let mut code: Vec<u8> = Vec::new();
    code.push(status.byte());
    fields.push(code);
    let ghost head = seq![encode_utf8(reply_id@), seq![status.spec_byte()]];
    assert(byte_views(fields@) =~= head);
    let mut i: usize = 0;
    while i < payload.len()
        invariant
            i <= payload.len(),
            byte_views(fields@) == head + utf8_fields(texts(payload@.take(i as int))),
        decreases payload.len() - i,
    {
        let ghost before = fields@;
        let bytes = vstd::slice::slice_to_vec(payload[i].as_str().as_bytes());
        assert(bytes@ == encode_utf8(payload@[i as int]@));
        fields.push(bytes);
        assert(byte_views(fields@) =~= byte_views(before).push(bytes@));
        assert(utf8_fields(texts(payload@.take(i + 1))) =~= utf8_fields(
            texts(payload@.take(i as int)),
        ).push(bytes@));
        i = i + 1;
        assert(byte_views(fields@) =~= head + utf8_fields(texts(payload@.take(i as int))));
    }
    assert(payload@.take(i as int) =~= payload@);
    encode_frames(&fields)
}

/// The status that a failed Wi-Fi join reports, read from the failure text:
/// a text that mentions the password marks a rejected credential.
pub open spec fn connect_failure_status(message: Seq<char>) -> StatusCode {
    if contains_text(message, WRONG_PASSWORD_MARK@) {
        StatusCode::WrongCredential
    } else {
        StatusCode::Unknown
    }
}

/// Classifies the failure text of a Wi-Fi join. Best effort: the tool gives
/// no structured error code.
pub fn classify_connect_error(message: &str) -> (r: StatusCode)
    ensures
        r == connect_failure_status(message@),
{
    if text_contains(message, WRONG_PASSWORD_MARK) {
        StatusCode::WrongCredential
    } else {
        StatusCode::Unknown
    }
}

/// What follows the outcome of a Wi-Fi join.
#[derive(Debug)]
pub enum JoinStep {
    /// Send this reply and stop.
    Reply(Vec<u8>),
    /// Ask the sibling process for the relay topic.
    FetchTopic,
}

/// Decides what follows a Wi-Fi join: on failure, a reply with the
/// classified status; on success, the relay topic exchange.
pub fn on_join_result(reply_id: &str, result: &Result<(), String>) -> (r: JoinStep)
    ensures
        match result {
            Ok(()) => r is FetchTopic,
            Err(e) => r matches JoinStep::Reply(b) && b@ == reply_bytes(
                reply_id@,
                connect_failure_status(e@),
                Seq::empty(),
            ),
        },
{
    match result {
        Ok(()) => JoinStep::FetchTopic,
        Err(e) => {
            let status = classify_connect_error(e.as_str());
            let none: Vec<String> = Vec::new();
            let reply = encode_reply(reply_id, status, &none);
            assert(texts(none@) =~= Seq::<Seq<char>>::empty());
            JoinStep::Reply(reply)
        },
    }
}

/// The reply that ends a successful Wi-Fi join, once the relay topic is
/// known: `[reply_id, Success, topic]`. Without a topic nothing is sent.
pub fn on_topic_result(reply_id: &str, topic: &Option<String>) -> (r: Option<Vec<u8>>)
    ensures
        match topic {
            None => r is None,
            Some(t) => r matches Some(b) && b@ == reply_bytes(
                reply_id@,
                StatusCode::Success,
                seq![t@],
            ),
        },
{
    match topic {
        None => None,
        Some(t) => {
            let mut payload: Vec<String> = Vec::new();
            payload.push(t.clone());
            assert(texts(payload@) =~= seq![t@]);
            Some(encode_reply(reply_id, StatusCode::Success, &payload))
        },
    }
}

/// A write that frames fewer than two fields is discarded: it asks for no
/// action and gets no reply.
pub proof fn lemma_short_message_discarded(buf: Seq<u8>, c: Command)
    requires
        command_of(buf, c),
        parsed_payload(buf) matches Some(f) && f.len() < 2,
    ensures
        c == Command::Discard(Discarded::TooFewFields),
{
}

/// A `connect_wifi` write that carries fewer than two parameters is
/// discarded: no Wi-Fi join is attempted and no reply is sent.
pub proof fn lemma_connect_needs_two_params(buf: Seq<u8>, c: Command)
    requires
        command_of(buf, c),
        parsed_payload(buf) matches Some(f) && 2 <= f.len() < 4 && f[0] == CMD_CONNECT_WIFI@,
    ensures
        c == Command::Discard(Discarded::MissingParams),
{
    let f = parsed_payload(buf)->0;
    reveal_strlit("scan_wifi");
    reveal_strlit("connect_wifi");
    assert(f[0][0] == 'c');
}

} // verus!
