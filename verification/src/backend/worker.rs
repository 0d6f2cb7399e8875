//! The AT backend's receive worker as a state machine: the set-up commands,
//! the radio readings, the first listing of stored messages and the reaction
//! to new-message indications.
//!
//! The caller owns the port: it sends the command a step names, feeds the raw
//! reply (or the transport error) to the next step, applies the readings to
//! the session snapshot and hands the records to the multipart assembler.

use vstd::prelude::*;

use crate::backend::at::{
    cmgl_pdu_from, cmgl_text_from, cmgr_pdu_spec, cmgr_text_of, cmti_slot_of, csq_of, kept_lines,
    list_command, operator_of, parse_cmgl_any, parse_cmgr_any, parse_cmti, parse_csq,
    parse_operator, parsed_views, read_command, text_mode_accepted, text_mode_reply, ParsedIncoming,
};
use crate::backend::pdu::DecodedSms;
use crate::providers::windows::opt_text;
use crate::text::{decimal, str_lines, str_to_string};

verus! {

/// The command last sent by the worker, with the mode chosen so far.
#[derive(Debug, Clone, Copy, PartialEq, Eq, Structural)]
pub enum WorkerStage {
    /// `ATE0` was sent.
    Echo,
    /// `AT+CMGF=1` was sent.
    TextMode,
    /// `AT+CMGF=0` was sent after text mode was refused.
    PduMode,
    /// `AT+CNMI=2,1,0,0,0` was sent.
    Notify { text_mode: bool },
    /// `AT+COPS?` was sent; `listing` is set during start-up, when the stored
    /// messages are listed after the radio readings.
    Operator { text_mode: bool, listing: bool },
    /// `AT+CSQ` was sent.
    Signal { text_mode: bool, listing: bool },
    /// The listing command of the mode was sent.
    Listing { text_mode: bool },
    /// Start-up is over; the worker waits for indications.
    Listening { text_mode: bool },
}

/// What a step asks of the caller: the next command (if any), the readings to
/// apply to the snapshot, and the records to deliver in order.
#[derive(Debug, Clone)]
pub struct WorkerStep {
    pub stage: WorkerStage,
    pub command: Option<String>,
    pub operator: Option<String>,
    pub csq: Option<(u8, Option<i32>)>,
    pub records: Vec<ParsedIncoming>,
}

pub open spec fn reply_text(reply: Result<String, String>) -> Result<Seq<char>, Seq<char>> {
    match reply {
        Ok(t) => Ok(t@),
        Err(e) => Err(e@),
    }
}

pub open spec fn listing_of(text_mode: bool) -> Seq<char> {
    if text_mode {
        "AT+CMGL=\"ALL\""@
    } else {
        "AT+CMGL=4"@
    }
}

/// The stage after `reply` came back in `stage`, and the command to send
/// next. Only a failed `AT+CMGF=0` ends the worker (with that error); every
/// other reply, a failed one too, moves it on.
pub open spec fn worker_plan(stage: WorkerStage, reply: Result<Seq<char>, Seq<char>>, text_ok: bool) -> Result<
    (WorkerStage, Option<Seq<char>>),
    Seq<char>,
> {
    match stage {
        WorkerStage::Echo => Ok((WorkerStage::TextMode, Some("AT+CMGF=1"@))),
        WorkerStage::TextMode => if text_ok {
            Ok((WorkerStage::Notify { text_mode: true }, Some("AT+CNMI=2,1,0,0,0"@)))
        } else {
            Ok((WorkerStage::PduMode, Some("AT+CMGF=0"@)))
        },
        WorkerStage::PduMode => match reply {
            Err(e) => Err(e),
            Ok(_) => Ok((WorkerStage::Notify { text_mode: false }, Some("AT+CNMI=2,1,0,0,0"@))),
        },
        WorkerStage::Notify { text_mode } => Ok(
            (WorkerStage::Operator { text_mode, listing: true }, Some("AT+COPS?"@)),
        ),
        WorkerStage::Operator { text_mode, listing } => Ok(
            (WorkerStage::Signal { text_mode, listing }, Some("AT+CSQ"@)),
        ),
        WorkerStage::Signal { text_mode, listing } => if listing {
            Ok((WorkerStage::Listing { text_mode }, Some(listing_of(text_mode))))
        } else {
            Ok((WorkerStage::Listening { text_mode }, None))
        },
        WorkerStage::Listing { text_mode } => Ok((WorkerStage::Listening { text_mode }, None)),
        WorkerStage::Listening { text_mode } => Ok((WorkerStage::Listening { text_mode }, None)),
    }
}

/// The commands the worker sends: echo off, the two mode selections,
/// new-message indications, the radio queries and the two listings.
pub open spec fn worker_commands() -> Seq<Seq<char>> {
    seq![
        "ATE0"@,
        "AT+CMGF=1"@,
        "AT+CMGF=0"@,
        "AT+CNMI=2,1,0,0,0"@,
        "AT+COPS?"@,
        "AT+CSQ"@,
        "AT+CMGL=\"ALL\""@,
        "AT+CMGL=4"@,
    ]
}

/// Whatever the modem replies, each step asks only for one of the worker's
/// receive-side commands, so the worker never asks the modem to send.
pub proof fn lemma_worker_sends_receive_commands(
    stage: WorkerStage,
    reply: Result<Seq<char>, Seq<char>>,
    text_ok: bool,
)
    ensures
        worker_plan(stage, reply, text_ok) matches Ok((_, Some(c))) ==> worker_commands().contains(c),
{
    let w = worker_commands();
    assert(w[0] == "ATE0"@ && w[1] == "AT+CMGF=1"@ && w[2] == "AT+CMGF=0"@ && w[3] == "AT+CNMI=2,1,0,0,0"@);
    assert(w[4] == "AT+COPS?"@ && w[5] == "AT+CSQ"@ && w[6] == "AT+CMGL=\"ALL\""@ && w[7] == "AT+CMGL=4"@);
}

/// The first stage of the worker and the command that opens it.
pub fn worker_start() -> (r: (WorkerStage, String))
    ensures
        r.0 == WorkerStage::Echo,
        r.1@ == "ATE0"@,
{
    (WorkerStage::Echo, str_to_string("ATE0"))
}

fn plain_step(stage: WorkerStage, command: Option<String>) -> (r: WorkerStep)
    ensures
        r.stage == stage,
        opt_text(r.command) == opt_text(command),
        r.operator is None,
        r.csq is None,
        r.records@.len() == 0,
{
    WorkerStep { stage, command, operator: None, csq: None, records: Vec::new() }
}

/// One step of the worker; see `worker_plan`. An operator reply gives the
/// operator it names, a signal reply its reading, and the start-up listing
/// its records, each read by the parser of the chosen mode; a failed reply
/// gives none.
pub fn worker_next<F: Fn(&str) -> Result<DecodedSms, String>>(
    stage: WorkerStage,
    reply: Result<String, String>,
    decode: &F,
) -> (r: Result<WorkerStep, String>)
    requires
        forall|s: &str| #[trigger] decode.requires((s,)),
    ensures
        match (r, worker_plan(stage, reply_text(reply), text_mode_reply(reply))) {
            (Ok(step), Ok((next, command))) => step.stage == next && opt_text(step.command)
                == command,
            (Err(e), Err(f)) => e@ == f,
            _ => false,
        },
        r matches Ok(step) ==> opt_text(step.operator) == (match (stage, reply) {
            (WorkerStage::Operator { .. }, Ok(t)) => operator_of(t@),
            _ => None,
        }),
        r matches Ok(step) ==> step.csq == (match (stage, reply) {
            (WorkerStage::Signal { .. }, Ok(t)) => csq_of(t@),
            _ => None,
        }),
        r matches Ok(step) ==> match (stage, reply) {
            (WorkerStage::Listing { text_mode: true }, Ok(t)) => parsed_views(step.records@)
                == cmgl_text_from(kept_lines(str_lines(t@), false), 0),
            (WorkerStage::Listing { text_mode: false }, Ok(t)) => cmgl_pdu_from(
                kept_lines(str_lines(t@), true),
                0,
                *decode,
                step.records@,
            ),
            _ => step.records@.len() == 0,
        },
{
    match stage {
        WorkerStage::Echo => Ok(plain_step(WorkerStage::TextMode, Some(str_to_string("AT+CMGF=1")))),
        WorkerStage::TextMode => {
            if text_mode_accepted(&reply) {
                Ok(
                    plain_step(
                        WorkerStage::Notify { text_mode: true },
                        Some(str_to_string("AT+CNMI=2,1,0,0,0")),
                    ),
                )
            } else {
                Ok(plain_step(WorkerStage::PduMode, Some(str_to_string("AT+CMGF=0"))))
            }
        },
        WorkerStage::PduMode => match reply {
            Err(e) => Err(e),
            Ok(_) => Ok(
                plain_step(
                    WorkerStage::Notify { text_mode: false },
                    Some(str_to_string("AT+CNMI=2,1,0,0,0")),
                ),
            ),
        },
        WorkerStage::Notify { text_mode } => Ok(
            plain_step(
                WorkerStage::Operator { text_mode, listing: true },
                Some(str_to_string("AT+COPS?")),
            ),
        ),
        WorkerStage::Operator { text_mode, listing } => {
            let operator = match &reply {
                Ok(t) => parse_operator(t.as_str()),
                Err(_) => None,
            };
            Ok(
                WorkerStep {
                    stage: WorkerStage::Signal { text_mode, listing },
                    command: Some(str_to_string("AT+CSQ")),
                    operator,
                    csq: None,
                    records: Vec::new(),
                },
            )
        },
        WorkerStage::Signal { text_mode, listing } => {
            let csq = match &reply {
                Ok(t) => parse_csq(t.as_str()),
                Err(_) => None,
            };
            let (next, command) = if listing {
                (WorkerStage::Listing { text_mode }, Some(str_to_string(list_command(text_mode))))
            } else {
                (WorkerStage::Listening { text_mode }, None)
            };
            Ok(WorkerStep { stage: next, command, operator: None, csq, records: Vec::new() })
        },
        WorkerStage::Listing { text_mode } => {
            let records = match &reply {
                Ok(t) => parse_cmgl_any(t.as_str(), text_mode, decode),
                Err(_) => Vec::new(),
            };
            Ok(
                WorkerStep {
                    stage: WorkerStage::Listening { text_mode },
                    command: None,
                    operator: None,
                    csq: None,
                    records,
                },
            )
        },
        WorkerStage::Listening { text_mode } => Ok(
            plain_step(WorkerStage::Listening { text_mode }, None),
        ),
    }
}

/// The periodic refresh of the radio readings while listening: the stage to
/// enter and the operator query that starts it.
pub fn worker_refresh(text_mode: bool) -> (r: (WorkerStage, String))
    ensures
        r.0 == (WorkerStage::Operator { text_mode, listing: false }),
        r.1@ == "AT+COPS?"@,
{
    (WorkerStage::Operator { text_mode, listing: false }, str_to_string("AT+COPS?"))
}

/// A line received while listening: the read command for the slot of a
/// `+CMTI:` indication, nothing for any other line.
pub fn worker_line(line: &str) -> (r: Option<String>)
    ensures
        match cmti_slot_of(line@) {
            Some(slot) => r matches Some(c) && c@ == "AT+CMGR="@ + decimal(slot as nat),
            None => r is None,
        },
{
    match parse_cmti(line) {
        Some(slot) => Some(read_command(slot)),
        None => None,
    }
}

/// The record in the reply to a read command for `slot`, read by the parser
/// of the mode; none when the read failed.
pub fn worker_read_reply<F: Fn(&str) -> Result<DecodedSms, String>>(
    text_mode: bool,
    slot: u32,
    reply: Result<String, String>,
    decode: &F,
) -> (r: Option<ParsedIncoming>)
    requires
        forall|s: &str| #[trigger] decode.requires((s,)),
    ensures
        match reply {
            Err(_) => r is None,
            Ok(t) => if text_mode {
                match r {
                    Some(p) => cmgr_text_of(t@, Some(slot)) == Some(p@),
                    None => cmgr_text_of(t@, Some(slot)) is None,
                }
            } else {
                cmgr_pdu_spec(t@, Some(slot), *decode, r)
            },
        },
{
    match &reply {
        Ok(t) => parse_cmgr_any(t.as_str(), text_mode, Some(slot), decode),
        Err(_) => None,
    }
}

} // verus!
