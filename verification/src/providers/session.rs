//! The receive-only AT session as a state machine: which command goes to the
//! modem next, given the reply to the previous one.
//!
//! The caller owns the serial port. It sends the command a step names, hands
//! the reply (its lines, or the transport error) to the next step, and stops
//! when a step returns no command or an error.

use vstd::prelude::*;

use crate::providers::at::{
    has_ok_line, incoming_views, lines_view, operator_from_lines, operator_line_from,
    parse_pdu_cmgl, parse_pdu_cmgr, parse_text_cmgl, parse_text_cmgr, pdu_cmgl_from,
    pdu_cmgr_spec, require_ok, require_ok_of, signal_from_lines, signal_line_from,
    text_cmgl_from, text_cmgr_of, text_mode_ok,
};
use crate::providers::windows::opt_text;
use crate::sms::inbox::IncomingSms;
use crate::sms::pdu::DecodedPdu;
use crate::text::{str_to_string, strings_view};

verus! {

/// How the modem hands out SMS records once the session is set up.
#[derive(Debug, Clone, Copy, PartialEq, Eq, Structural)]
pub enum SmsMode {
    Text,
    Pdu,
}

/// Where the session set-up stands: the command last sent, and what the
/// earlier replies gave.
#[derive(Debug, Clone)]
pub enum SessionStage {
    /// `AT` was sent.
    Probe,
    /// `ATE0` was sent.
    Echo,
    /// `AT+COPS?` was sent.
    Operator,
    /// `AT+CSQ` was sent.
    Signal { operator: Option<String> },
    /// `AT+CMGF=1` was sent.
    TextMode { operator: Option<String>, signal: Option<u8> },
    /// `AT+CMGF=0` was sent after text mode was refused.
    PduMode { operator: Option<String>, signal: Option<u8> },
    /// `AT+CNMI=2,1,0,0,0` was sent.
    Notify { mode: SmsMode, operator: Option<String>, signal: Option<u8> },
    /// Set-up is over.
    Ready { mode: SmsMode, operator: Option<String>, signal: Option<u8> },
}

/// A session stage with its texts as character sequences.
pub enum SessionView {
    Probe,
    Echo,
    Operator,
    Signal { operator: Option<Seq<char>> },
    TextMode { operator: Option<Seq<char>>, signal: Option<u8> },
    PduMode { operator: Option<Seq<char>>, signal: Option<u8> },
    Notify { mode: SmsMode, operator: Option<Seq<char>>, signal: Option<u8> },
    Ready { mode: SmsMode, operator: Option<Seq<char>>, signal: Option<u8> },
}

impl View for SessionStage {
    type V = SessionView;

    open spec fn view(&self) -> SessionView {
        match self {
            SessionStage::Probe => SessionView::Probe,
            SessionStage::Echo => SessionView::Echo,
            SessionStage::Operator => SessionView::Operator,
            SessionStage::Signal { operator } => SessionView::Signal { operator: opt_text(*operator) },
            SessionStage::TextMode { operator, signal } => SessionView::TextMode {
                operator: opt_text(*operator),
                signal: *signal,
            },
            SessionStage::PduMode { operator, signal } => SessionView::PduMode {
                operator: opt_text(*operator),
                signal: *signal,
            },
            SessionStage::Notify { mode, operator, signal } => SessionView::Notify {
                mode: *mode,
                operator: opt_text(*operator),
                signal: *signal,
            },
            SessionStage::Ready { mode, operator, signal } => SessionView::Ready {
                mode: *mode,
                operator: opt_text(*operator),
                signal: *signal,
            },
        }
    }
}

/// A modem reply as the contracts see it: its lines, or the transport error.
pub open spec fn reply_view(reply: Result<Vec<String>, String>) -> Result<Seq<Seq<char>>, Seq<char>> {
    match reply {
        Ok(lines) => Ok(strings_view(lines@)),
        Err(e) => Err(e@),
    }
}

pub open spec fn step_view(r: Result<(SessionStage, Option<String>), String>) -> Result<
    (SessionView, Option<Seq<char>>),
    Seq<char>,
> {
    match r {
        Ok((stage, command)) => Ok((stage@, opt_text(command))),
        Err(e) => Err(e@),
    }
}

pub open spec fn notify_command() -> Seq<char> {
    "AT+CNMI=2,1,0,0,0"@
}

/// The next stage and the command to send after `reply` came back in `stage`;
/// `None` once set-up is over.
///
/// The probe and both mode selections must succeed: a transport error, or a
/// probe or PDU-mode reply without `OK`, ends the session with that error.
/// Echo, operator, signal and notification replies never end it; an operator
/// or signal reply that cannot be read leaves that value unknown. Text mode
/// is taken when its reply holds an `OK` line, else PDU mode is asked for.
pub open spec fn session_next_of(
    stage: SessionView,
    reply: Result<Seq<Seq<char>>, Seq<char>>,
) -> Result<(SessionView, Option<Seq<char>>), Seq<char>> {
    match stage {
        SessionView::Probe => match reply {
            Err(e) => Err(e),
            Ok(ls) => match require_ok_of(ls, "AT"@) {
                Err(e) => Err(e),
                Ok(_) => Ok((SessionView::Echo, Some("ATE0"@))),
            },
        },
        SessionView::Echo => Ok((SessionView::Operator, Some("AT+COPS?"@))),
        SessionView::Operator => Ok(
            (
                SessionView::Signal {
                    operator: match reply {
                        Ok(ls) => operator_line_from(ls, 0),
                        Err(_) => None,
                    },
                },
                Some("AT+CSQ"@),
            ),
        ),
        SessionView::Signal { operator } => Ok(
            (
                SessionView::TextMode {
                    operator,
                    signal: match reply {
                        Ok(ls) => signal_line_from(ls, 0),
                        Err(_) => None,
                    },
                },
                Some("AT+CMGF=1"@),
            ),
        ),
        SessionView::TextMode { operator, signal } => match reply {
            Err(e) => Err(e),
            Ok(ls) => if has_ok_line(ls) {
                Ok((SessionView::Notify { mode: SmsMode::Text, operator, signal }, Some(notify_command())))
            } else {
                Ok((SessionView::PduMode { operator, signal }, Some("AT+CMGF=0"@)))
            },
        },
        SessionView::PduMode { operator, signal } => match reply {
            Err(e) => Err(e),
            Ok(ls) => match require_ok_of(ls, "AT+CMGF=0"@) {
                Err(e) => Err(e),
                Ok(_) => Ok(
                    (SessionView::Notify { mode: SmsMode::Pdu, operator, signal }, Some(notify_command())),
                ),
            },
        },
        SessionView::Notify { mode, operator, signal } => Ok(
            (SessionView::Ready { mode, operator, signal }, None),
        ),
        SessionView::Ready { mode, operator, signal } => Ok(
            (SessionView::Ready { mode, operator, signal }, None),
        ),
    }
}

/// The commands that set up reception: probe, echo off, operator and signal
/// queries, the two mode selections and new-message indications.
pub open spec fn setup_commands() -> Seq<Seq<char>> {
    seq!["AT"@, "ATE0"@, "AT+COPS?"@, "AT+CSQ"@, "AT+CMGF=1"@, "AT+CMGF=0"@, notify_command()]
}

/// Whatever the modem replies, the set-up only ever sends one of the
/// set-up commands, so it never asks the modem to send a message.
pub proof fn lemma_session_sends_setup_commands(
    stage: SessionView,
    reply: Result<Seq<Seq<char>>, Seq<char>>,
)
    ensures
        session_next_of(stage, reply) matches Ok((_, Some(c))) ==> setup_commands().contains(c),
{
    let s = setup_commands();
    assert(s[0] == "AT"@ && s[1] == "ATE0"@ && s[2] == "AT+COPS?"@ && s[3] == "AT+CSQ"@);
    assert(s[4] == "AT+CMGF=1"@ && s[5] == "AT+CMGF=0"@ && s[6] == notify_command());
}

/// Once set-up is over it stays over, whatever further reply is handed in.
pub proof fn lemma_session_ready_is_final(
    mode: SmsMode,
    operator: Option<Seq<char>>,
    signal: Option<u8>,
    reply: Result<Seq<Seq<char>>, Seq<char>>,
)
    ensures
        session_next_of(SessionView::Ready { mode, operator, signal }, reply) == Ok::<
            (SessionView, Option<Seq<char>>),
            Seq<char>,
        >((SessionView::Ready { mode, operator, signal }, None)),
{
}

/// The first stage of a session and the command that opens it.
pub fn session_start() -> (r: (SessionStage, String))
    ensures
        r.0@ == SessionView::Probe,
        r.1@ == "AT"@,
{
    (SessionStage::Probe, str_to_string("AT"))
}

/// One step of the session set-up; see `session_next_of`.
pub fn session_next(stage: SessionStage, reply: Result<Vec<String>, String>) -> (r: Result<
    (SessionStage, Option<String>),
    String,
>)
    ensures
        step_view(r) == session_next_of(stage@, reply_view(reply)),
{
    match stage {
        SessionStage::Probe => match reply {
            Err(e) => Err(e),
            Ok(lines) => match require_ok(&lines, "AT") {
                Err(e) => Err(e),
                Ok(()) => Ok((SessionStage::Echo, Some(str_to_string("ATE0")))),
            },
        },
        SessionStage::Echo => Ok((SessionStage::Operator, Some(str_to_string("AT+COPS?")))),
        SessionStage::Operator => {
            let operator = match reply {
                Ok(lines) => operator_from_lines(&lines),
                Err(_) => None,
            };
            Ok((SessionStage::Signal { operator }, Some(str_to_string("AT+CSQ"))))
        },
        SessionStage::Signal { operator } => {
            let signal = match reply {
                Ok(lines) => signal_from_lines(&lines),
                Err(_) => None,
            };
            Ok((SessionStage::TextMode { operator, signal }, Some(str_to_string("AT+CMGF=1"))))
        },
        SessionStage::TextMode { operator, signal } => match reply {
            Err(e) => Err(e),
            Ok(lines) => {
                if text_mode_ok(&lines) {
                    Ok(
                        (
                            SessionStage::Notify { mode: SmsMode::Text, operator, signal },
                            Some(str_to_string("AT+CNMI=2,1,0,0,0")),
                        ),
                    )
                } else {
                    Ok((SessionStage::PduMode { operator, signal }, Some(str_to_string("AT+CMGF=0"))))
                }
            },
        },
        SessionStage::PduMode { operator, signal } => match reply {
            Err(e) => Err(e),
            Ok(lines) => match require_ok(&lines, "AT+CMGF=0") {
                Err(e) => Err(e),
                Ok(()) => Ok(
                    (
                        SessionStage::Notify { mode: SmsMode::Pdu, operator, signal },
                        Some(str_to_string("AT+CNMI=2,1,0,0,0")),
                    ),
                ),
            },
        },
        SessionStage::Notify { mode, operator, signal } => Ok(
            (SessionStage::Ready { mode, operator, signal }, None),
        ),
        SessionStage::Ready { mode, operator, signal } => Ok(
            (SessionStage::Ready { mode, operator, signal }, None),
        ),
    }
}

/// Where a read of the stored records stands: the listing command last sent.
#[derive(Debug, Clone, Copy, PartialEq, Eq, Structural)]
pub enum ScanStage {
    /// `AT+CMGL="REC UNREAD"` was sent.
    Unread,
    /// `AT+CMGL="ALL"` was sent after the unread listing was refused.
    All,
    /// `AT+CMGL=0` was sent in PDU mode.
    Pdu,
}

/// What follows a listing reply: another listing command, or the lines to parse.
#[derive(Debug, Clone)]
pub enum ScanStep {
    Send { stage: ScanStage, command: String },
    Listed { mode: SmsMode, lines: Vec<String> },
}

pub enum ScanStepView {
    Send { stage: ScanStage, command: Seq<char> },
    Listed { mode: SmsMode, lines: Seq<Seq<char>> },
}

impl View for ScanStep {
    type V = ScanStepView;

    open spec fn view(&self) -> ScanStepView {
        match self {
            ScanStep::Send { stage, command } => ScanStepView::Send { stage: *stage, command: command@ },
            ScanStep::Listed { mode, lines } => ScanStepView::Listed {
                mode: *mode,
                lines: strings_view(lines@),
            },
        }
    }
}

pub open spec fn scan_view(r: Result<ScanStep, String>) -> Result<ScanStepView, Seq<char>> {
    match r {
        Ok(step) => Ok(step@),
        Err(e) => Err(e@),
    }
}

/// The first listing command of a read in `mode`.
pub open spec fn scan_start_of(mode: SmsMode) -> (ScanStage, Seq<char>) {
    match mode {
        SmsMode::Text => (ScanStage::Unread, "AT+CMGL=\"REC UNREAD\""@),
        SmsMode::Pdu => (ScanStage::Pdu, "AT+CMGL=0"@),
    }
}

/// What a listing reply leads to. A transport error ends the read. In text
/// mode an unread listing without `OK` is retried as a listing of all
/// records; that one, and the PDU listing, must end in `OK`, else the read
/// fails with the diagnostic of `require_ok_of`.
pub open spec fn scan_next_of(stage: ScanStage, reply: Result<Seq<Seq<char>>, Seq<char>>) -> Result<
    ScanStepView,
    Seq<char>,
> {
    match reply {
        Err(e) => Err(e),
        Ok(ls) => match stage {
            ScanStage::Unread => match require_ok_of(ls, "AT+CMGL=REC UNREAD"@) {
                Ok(_) => Ok(ScanStepView::Listed { mode: SmsMode::Text, lines: ls }),
                Err(_) => Ok(ScanStepView::Send { stage: ScanStage::All, command: "AT+CMGL=\"ALL\""@ }),
            },
            ScanStage::All => match require_ok_of(ls, "AT+CMGL=ALL"@) {
                Ok(_) => Ok(ScanStepView::Listed { mode: SmsMode::Text, lines: ls }),
                Err(e) => Err(e),
            },
            ScanStage::Pdu => match require_ok_of(ls, "AT+CMGL=0"@) {
                Ok(_) => Ok(ScanStepView::Listed { mode: SmsMode::Pdu, lines: ls }),
                Err(e) => Err(e),
            },
        },
    }
}

pub fn scan_start(mode: SmsMode) -> (r: (ScanStage, String))
    ensures
        (r.0, r.1@) == scan_start_of(mode),
{
    match mode {
        SmsMode::Text => (ScanStage::Unread, str_to_string("AT+CMGL=\"REC UNREAD\"")),
        SmsMode::Pdu => (ScanStage::Pdu, str_to_string("AT+CMGL=0")),
    }
}

/// One step of a read of the stored records; see `scan_next_of`.
pub fn scan_next(stage: ScanStage, reply: Result<Vec<String>, String>) -> (r: Result<ScanStep, String>)
    ensures
        scan_view(r) == scan_next_of(stage, reply_view(reply)),
{
    match reply {
        Err(e) => Err(e),
        Ok(lines) => match stage {
            ScanStage::Unread => match require_ok(&lines, "AT+CMGL=REC UNREAD") {
                Ok(()) => Ok(ScanStep::Listed { mode: SmsMode::Text, lines }),
                Err(_) => Ok(
                    ScanStep::Send { stage: ScanStage::All, command: str_to_string("AT+CMGL=\"ALL\"") },
                ),
            },
            ScanStage::All => match require_ok(&lines, "AT+CMGL=ALL") {
                Ok(()) => Ok(ScanStep::Listed { mode: SmsMode::Text, lines }),
                Err(e) => Err(e),
            },
            ScanStage::Pdu => match require_ok(&lines, "AT+CMGL=0") {
                Ok(()) => Ok(ScanStep::Listed { mode: SmsMode::Pdu, lines }),
                Err(e) => Err(e),
            },
        },
    }
}

/// The records of a listing, read by the parser of its mode.
pub fn parse_listing<F: Fn(&str) -> Result<DecodedPdu, String>>(
    port_name: &str,
    mode: SmsMode,
    lines: &[String],
    decode: &F,
) -> (r: Vec<IncomingSms>)
    requires
        forall|s: &str| #[trigger] decode.requires((s,)),
    ensures
        mode == SmsMode::Text ==> incoming_views(r@) == text_cmgl_from(
            port_name@,
            lines_view(lines@),
            0,
        ),
        mode == SmsMode::Pdu ==> pdu_cmgl_from(port_name@, lines_view(lines@), 0, *decode, r@),
{
    match mode {
        SmsMode::Text => parse_text_cmgl(port_name, lines),
        SmsMode::Pdu => parse_pdu_cmgl(port_name, lines, decode),
    }
}

/// What the reply to `AT+CMGR=<index>` gives: a transport error or a reply
/// without `OK` is an error; otherwise the record read by the parser of the
/// session's mode, if the reply holds one.
pub fn index_reply<F: Fn(&str) -> Result<DecodedPdu, String>>(
    port_name: &str,
    mode: SmsMode,
    index: u32,
    reply: Result<Vec<String>, String>,
    decode: &F,
) -> (r: Result<Option<IncomingSms>, String>)
    requires
        forall|s: &str| #[trigger] decode.requires((s,)),
    ensures
        reply matches Err(e) ==> r matches Err(f) && f@ == e@,
        reply matches Ok(lines) ==> match require_ok_of(lines_view(lines@), "AT+CMGR"@) {
            Err(e) => r matches Err(f) && f@ == e,
            Ok(_) => r matches Ok(o) && match mode {
                SmsMode::Text => match o {
                    Some(m) => text_cmgr_of(port_name@, index, lines_view(lines@)) == Some(m@),
                    None => text_cmgr_of(port_name@, index, lines_view(lines@)) is None,
                },
                SmsMode::Pdu => pdu_cmgr_spec(port_name@, index, lines_view(lines@), *decode, o),
            },
        },
{
    match reply {
        Err(e) => Err(e),
        Ok(lines) => match require_ok(&lines, "AT+CMGR") {
            Err(e) => Err(e),
            Ok(()) => Ok(
                match mode {
                    SmsMode::Text => parse_text_cmgr(port_name, index, &lines),
                    SmsMode::Pdu => parse_pdu_cmgr(port_name, index, &lines, decode),
                },
            ),
        },
    }
}

} // verus!
