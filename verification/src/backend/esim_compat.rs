//! The eSIM compatibility path for machines without the native Windows LPA:
//! recognising a real eUICC that a modem exposes through AT APDU commands,
//! and planning and reporting an `lpac` profile download.
//!
//! Nothing here emulates an eUICC. The serial port and the `lpac` process
//! belong to the application; this module decides what the replies mean and
//! what is handed to `lpac`.

use vstd::prelude::*;

use crate::model::{EsimCompatCandidate, EsimCompatInstallRequest};
use crate::sms::inbox::{digit_run_end, lemma_digit_run_end};
use crate::text::{
    append_chars, append_str, ascii_lower_chars, ascii_upper_chars, chars_eq_str, chars_of,
    contains, contains_str, has_prefix, in_class, is_ascii_digit, join, lower_seq, parse_u32,
    parse_u32_chars, starts_with_str, string_of, sub_chars, trim, trim_ws, upper_seq, CharClass,
};

verus! {

/// The longest `lpac` output that a message carries in full.
pub const LPAC_OUTPUT_LIMIT: usize = 1600;

/// The first Windows build (24H2) that ships the native LPA.
pub const NATIVE_LPA_MIN_BUILD: u32 = 26100;

// ---------------------------------------------------------------------------
// Modem replies.
// ---------------------------------------------------------------------------

/// A reply that reports success: upper-cased, it holds `OK` and no `ERROR`.
pub open spec fn reply_ok(reply: Seq<char>) -> bool {
    contains(upper_seq(reply), "OK"@) && !contains(upper_seq(reply), "ERROR"@)
}

/// A test command (`AT+X=?`) is supported when the reply is not blank and reports success.
pub open spec fn reply_supported(reply: Seq<char>) -> bool {
    trim(reply).len() > 0 && reply_ok(reply)
}

/// The Quectel `AT+QESIM=?` reply names `QESIM` and reports success.
pub open spec fn reply_vendor_esim(reply: Seq<char>) -> bool {
    contains(upper_seq(reply), "QESIM"@) && reply_ok(reply)
}

pub fn command_ok(response: &str) -> (b: bool)
    ensures
        b == reply_ok(response@),
{
    let v = chars_of(response);
    let upper = ascii_upper_chars(&v);
    contains_str(&upper, "OK") && !contains_str(&upper, "ERROR")
}

pub fn command_supported(response: &str) -> (b: bool)
    ensures
        b == reply_supported(response@),
{
    let v = chars_of(response);
    let t = trim_ws(&v);
    t.len() > 0 && command_ok(response)
}

pub fn vendor_esim_supported(response: &str) -> (b: bool)
    ensures
        b == reply_vendor_esim(response@),
{
    let v = chars_of(response);
    let upper = ascii_upper_chars(&v);
    contains_str(&upper, "QESIM") && command_ok(response)
}

/// A probe reply is complete once it holds a final `OK`, a final `ERROR` or a `+CME ERROR`.
pub open spec fn probe_reply_complete(text: Seq<char>) -> bool {
    contains(text, "\r\nOK\r\n"@) || contains(text, "\r\nERROR\r\n"@) || contains(
        text,
        "+CME ERROR"@,
    )
}

pub fn probe_reply_done(text: &str) -> (b: bool)
    ensures
        b == probe_reply_complete(text@),
{
    let v = chars_of(text);
    contains_str(&v, "\r\nOK\r\n") || contains_str(&v, "\r\nERROR\r\n") || contains_str(
        &v,
        "+CME ERROR",
    )
}

// ---------------------------------------------------------------------------
// EID.
// ---------------------------------------------------------------------------

/// Start of the first maximal run of exactly `n` ASCII digits at or after `i`.
pub open spec fn exact_run_from(s: Seq<char>, i: int, n: int) -> Option<int>
    decreases s.len() - i,
{
    if i < 0 || i >= s.len() {
        None
    } else if !is_ascii_digit(s[i]) {
        exact_run_from(s, i + 1, n)
    } else {
        let e = digit_run_end(s, i + 1);
        proof {
            lemma_digit_run_end(s, i + 1);
        }
        if e - i == n {
            Some(i)
        } else {
            exact_run_from(s, e, n)
        }
    }
}

/// The EID in a reply: the first piece between non-digit characters that is
/// exactly 32 digits long.
pub open spec fn eid_in(reply: Seq<char>) -> Option<Seq<char>> {
    match exact_run_from(reply, 0, 32) {
        Some(k) => Some(reply.subrange(k, k + 32)),
        None => None,
    }
}

pub fn extract_eid(response: &str) -> (r: Option<String>)
    ensures
        r matches Some(s) ==> eid_in(response@) == Some(s@),
        r is None ==> eid_in(response@) is None,
{
    let s = chars_of(response);
    let mut start: usize = 0;
    while start < s.len()
        invariant
            0 <= start <= s.len(),
            s@ == response@,
            exact_run_from(s@, 0, 32) == exact_run_from(s@, start as int, 32),
        decreases s.len() - start,
    {
        if !crate::text::char_is_ascii_digit(s[start]) {
            start = start + 1;
        } else {
            let mut end = start + 1;
            while end < s.len() && crate::text::char_is_ascii_digit(s[end])
                invariant
                    start < end <= s.len(),
                    digit_run_end(s@, start + 1) == digit_run_end(s@, end as int),
                decreases s.len() - end,
            {
                end = end + 1;
            }
            if end - start == 32 {
                let run = sub_chars(&s, start, end);
                return Some(string_of(&run));
            }
            start = end;
        }
    }
    None
}

// ---------------------------------------------------------------------------
// Activation codes and lpac output.
// ---------------------------------------------------------------------------

pub open spec fn activation_error() -> Seq<char> {
    "请输入 LPA: URI 或二维码中的完整 1$ activation code"@
}

/// The activation code handed to lpac: an `LPA:` URI as given (the scheme
/// matched without regard to ASCII case), or a bare `1$` code with `LPA:` in
/// front; anything else is refused.
pub open spec fn normalized_activation(raw: Seq<char>) -> Result<Seq<char>, Seq<char>> {
    let value = trim(raw);
    if has_prefix(lower_seq(value), "lpa:"@) {
        Ok(value)
    } else if has_prefix(value, "1$"@) {
        Ok("LPA:"@ + value)
    } else {
        Err(activation_error())
    }
}

pub open spec fn text_result(r: Result<String, String>) -> Result<Seq<char>, Seq<char>> {
    match r {
        Ok(s) => Ok(s@),
        Err(e) => Err(e@),
    }
}

pub fn normalize_activation(raw: &str) -> (r: Result<String, String>)
    ensures
        text_result(r) == normalized_activation(raw@),
{
    let v = chars_of(raw);
    let value = trim_ws(&v);
    let lower = ascii_lower_chars(&value);
    if starts_with_str(&lower, "lpa:") {
        Ok(string_of(&value))
    } else if starts_with_str(&value, "1$") {
        let mut out: Vec<char> = Vec::new();
        append_str(&mut out, "LPA:");
        append_chars(&mut out, &value);
        Ok(string_of(&out))
    } else {
        Err(crate::text::str_to_string("请输入 LPA: URI 或二维码中的完整 1$ activation code"))
    }
}

/// lpac output as a message shows it: in full up to the limit, else its first
/// `LPAC_OUTPUT_LIMIT` characters and a truncation note.
pub open spec fn clipped_output(value: Seq<char>) -> Seq<char> {
    if value.len() <= LPAC_OUTPUT_LIMIT {
        value
    } else {
        value.take(LPAC_OUTPUT_LIMIT as int) + "\n…输出已截断"@
    }
}

pub fn trim_output(value: &str) -> (r: String)
    ensures
        r@ == clipped_output(value@),
{
    let v = chars_of(value);
    if v.len() <= LPAC_OUTPUT_LIMIT {
        return string_of(&v);
    }
    let mut out = sub_chars(&v, 0, LPAC_OUTPUT_LIMIT);
    append_str(&mut out, "\n…输出已截断");
    string_of(&out)
}

// ---------------------------------------------------------------------------
// Installing a profile through lpac.
// ---------------------------------------------------------------------------

/// What the application runs: `program profile download -a activation`, with
/// `LPAC_APDU=transport` and `LPAC_APDU_AT_DEVICE=device` in its environment.
#[derive(Debug, Clone)]
pub struct LpacDownload {
    pub program: String,
    pub transport: String,
    pub device: String,
    pub activation: String,
}

pub struct LpacDownloadView {
    pub program: Seq<char>,
    pub transport: Seq<char>,
    pub device: Seq<char>,
    pub activation: Seq<char>,
}

impl View for LpacDownload {
    type V = LpacDownloadView;

    open spec fn view(&self) -> LpacDownloadView {
        LpacDownloadView {
            program: self.program@,
            transport: self.transport@,
            device: self.device@,
            activation: self.activation@,
        }
    }
}

pub open spec fn lpac_missing_error() -> Seq<char> {
    "未找到 lpac。请把官方 lpac.exe 放到 CellularHub.exe 同目录、tools 目录，或加入 PATH。"@
}

pub open spec fn missing_port_error() -> Seq<char> {
    "缺少 eUICC/Modem 串口"@
}

/// The lpac APDU back end for a requested transport (trimmed, ASCII lower-cased):
/// `at`, or `at_csim` for `at_csim` and `csim`.
pub open spec fn apdu_transport(requested: Seq<char>) -> Result<Seq<char>, Seq<char>> {
    let t = lower_seq(trim(requested));
    if t == "at"@ {
        Ok("at"@)
    } else if t == "at_csim"@ || t == "csim"@ {
        Ok("at_csim"@)
    } else {
        Err("不支持的 eUICC APDU transport: "@ + t)
    }
}

pub fn lpac_transport(requested: &str) -> (r: Result<String, String>)
    ensures
        text_result(r) == apdu_transport(requested@),
{
    let v = chars_of(requested);
    let t = trim_ws(&v);
    let lower = ascii_lower_chars(&t);
    if chars_eq_str(&lower, "at") {
        Ok(crate::text::str_to_string("at"))
    } else if chars_eq_str(&lower, "at_csim") || chars_eq_str(&lower, "csim") {
        Ok(crate::text::str_to_string("at_csim"))
    } else {
        let mut msg: Vec<char> = Vec::new();
        append_str(&mut msg, "不支持的 eUICC APDU transport: ");
        append_chars(&mut msg, &lower);
        Err(string_of(&msg))
    }
}

/// The download that an install request asks for, checked in the order the
/// request is read: the activation code, lpac being found, the transport, the port.
pub open spec fn install_plan(
    activation_code: Seq<char>,
    transport: Seq<char>,
    port: Seq<char>,
    lpac: Option<Seq<char>>,
) -> Result<LpacDownloadView, Seq<char>> {
    match normalized_activation(activation_code) {
        Err(e) => Err(e),
        Ok(activation) => match lpac {
            None => Err(lpac_missing_error()),
            Some(program) => match apdu_transport(transport) {
                Err(e) => Err(e),
                Ok(t) => if trim(port).len() == 0 {
                    Err(missing_port_error())
                } else {
                    Ok(
                        LpacDownloadView {
                            program,
                            transport: t,
                            device: trim(port),
                            activation,
                        },
                    )
                },
            },
        },
    }
}

pub open spec fn opt_text(o: Option<String>) -> Option<Seq<char>> {
    match o {
        Some(s) => Some(s@),
        None => None,
    }
}

/// Checks an install request against the lpac program that was found, if any.
pub fn plan_install(request: &EsimCompatInstallRequest, lpac_path: Option<String>) -> (r: Result<
    LpacDownload,
    String,
>)
    ensures
        match r {
            Ok(d) => install_plan(
                request.activation_code@,
                request.transport@,
                request.port@,
                opt_text(lpac_path),
            ) == Ok::<LpacDownloadView, Seq<char>>(d@),
            Err(e) => install_plan(
                request.activation_code@,
                request.transport@,
                request.port@,
                opt_text(lpac_path),
            ) == Err::<LpacDownloadView, Seq<char>>(e@),
        },
{
    let activation = match normalize_activation(request.activation_code.as_str()) {
        Ok(a) => a,
        Err(e) => return Err(e),
    };
    let program = match lpac_path {
        Some(p) => p,
        None => {
            return Err(
                crate::text::str_to_string(
                    "未找到 lpac。请把官方 lpac.exe 放到 CellularHub.exe 同目录、tools 目录，或加入 PATH。",
                ),
            )
        },
    };
    let transport = match lpac_transport(request.transport.as_str()) {
        Ok(t) => t,
        Err(e) => return Err(e),
    };
    let pv = chars_of(request.port.as_str());
    let device = trim_ws(&pv);
    if device.len() == 0 {
        return Err(crate::text::str_to_string("缺少 eUICC/Modem 串口"));
    }
    Ok(LpacDownload { program, transport, device: string_of(&device), activation })
}

pub open spec fn download_done_note() -> Seq<char> {
    "lpac 已完成 profile download。请在设备/运营商状态中确认配置文件是否已安装。"@
}

pub open spec fn no_detail_note() -> Seq<char> {
    "该 modem/eUICC 可能不支持所选 AT APDU 通道，或 AT 后端响应时间不足。"@
}

/// What an lpac run reports: on success its (trimmed, clipped) output or a
/// completion note; on failure the exit status and the trimmed error output,
/// or the standard output where the error output is blank.
pub open spec fn install_report(
    success: bool,
    status: Seq<char>,
    stdout: Seq<char>,
    stderr: Seq<char>,
) -> Result<Seq<char>, Seq<char>> {
    let out = trim(stdout);
    let err = trim(stderr);
    if success {
        Ok(
            if out.len() == 0 {
                download_done_note()
            } else {
                clipped_output(out)
            },
        )
    } else {
        let detail = if err.len() > 0 {
            err
        } else {
            out
        };
        Err(
            "lpac provisioning 失败（"@ + status + "）。"@ + if detail.len() == 0 {
                no_detail_note()
            } else {
                clipped_output(detail)
            },
        )
    }
}

/// The message for a finished lpac run, from its exit status (as text) and its output.
pub fn install_outcome(success: bool, status: &str, stdout: &str, stderr: &str) -> (r: Result<
    String,
    String,
>)
    ensures
        text_result(r) == install_report(success, status@, stdout@, stderr@),
{
    let ov = chars_of(stdout);
    let out = trim_ws(&ov);
    let ev = chars_of(stderr);
    let err = trim_ws(&ev);
    if success {
        if out.len() == 0 {
            return Ok(
                crate::text::str_to_string(
                    "lpac 已完成 profile download。请在设备/运营商状态中确认配置文件是否已安装。",
                ),
            );
        }
        let o = string_of(&out);
        return Ok(trim_output(o.as_str()));
    }
    let detail = if err.len() > 0 {
        err
    } else {
        out
    };
    let mut msg: Vec<char> = Vec::new();
    append_str(&mut msg, "lpac provisioning 失败（");
    append_str(&mut msg, status);
    append_str(&mut msg, "）。");
    if detail.len() == 0 {
        append_str(&mut msg, "该 modem/eUICC 可能不支持所选 AT APDU 通道，或 AT 后端响应时间不足。");
    } else {
        let d = string_of(&detail);
        let clipped = trim_output(d.as_str());
        append_str(&mut msg, clipped.as_str());
    }
    proof {
        let tail = if detail@.len() == 0 {
            no_detail_note()
        } else {
            clipped_output(detail@)
        };
        assert(msg@ =~= "lpac provisioning 失败（"@ + status@ + "）。"@ + tail);
    }
    Err(string_of(&msg))
}

// ---------------------------------------------------------------------------
// Candidates.
// ---------------------------------------------------------------------------

/// The capability notes of a candidate port, in display order.
pub open spec fn candidate_notes(
    at_apdu: bool,
    at_csim: bool,
    vendor: bool,
    has_eid: bool,
    lpac: bool,
) -> Seq<Seq<char>> {
    let a: Seq<Seq<char>> = if at_apdu {
        seq!["CCHO/CGLA APDU"@]
    } else {
        Seq::empty()
    };
    let b: Seq<Seq<char>> = if at_csim {
        seq!["CSIM APDU"@]
    } else {
        Seq::empty()
    };
    let c: Seq<Seq<char>> = if vendor {
        seq!["厂商 QESIM"@]
    } else {
        Seq::empty()
    };
    let d: Seq<Seq<char>> = if has_eid {
        seq!["EID 可读"@]
    } else {
        Seq::empty()
    };
    let e: Seq<Seq<char>> = if lpac {
        seq!["lpac 已发现"@]
    } else {
        seq!["缺少 lpac"@]
    };
    a + b + c + d + e
}

/// What the replies of a port that answered `AT` say about it: nothing is a
/// candidate unless some eUICC path (APDU over `CCHO`, `CSIM`, the vendor
/// command or a readable EID) shows up; install is ready only with lpac and an
/// APDU path.
pub open spec fn candidate_from(
    port: Seq<char>,
    ccho: Seq<char>,
    csim: Seq<char>,
    qesim: Seq<char>,
    eid: Option<Seq<char>>,
    lpac: bool,
    c: Option<EsimCompatCandidate>,
) -> bool {
    let at_apdu = reply_supported(ccho);
    let at_csim = reply_supported(csim);
    let vendor = reply_vendor_esim(qesim);
    if !(at_apdu || at_csim || vendor || eid is Some) {
        c is None
    } else {
        &&& c is Some
        &&& c.unwrap().port@ == port
        &&& c.unwrap().at_apdu == at_apdu
        &&& c.unwrap().at_csim == at_csim
        &&& c.unwrap().vendor_esim == vendor
        &&& opt_text(c.unwrap().eid) == eid
        &&& c.unwrap().lpac_available == lpac
        &&& c.unwrap().install_ready == (lpac && (at_apdu || at_csim))
        &&& c.unwrap().note@ == join(
            candidate_notes(at_apdu, at_csim, vendor, eid is Some, lpac),
            " · "@,
        )
    }
}

fn push_note(notes: &mut Vec<Vec<char>>, text: &str)
    ensures
        crate::text::views_of(final(notes)@) == crate::text::views_of(old(notes)@).push(text@),
{
    let v = chars_of(text);
    notes.push(v);
    assert(crate::text::views_of(notes@) =~= crate::text::views_of(old(notes)@).push(text@));
}

/// Builds the candidate entry for a port from its replies to `AT+CCHO=?`,
/// `AT+CSIM=?` and `AT+QESIM=?` and the EID read where the vendor command exists.
pub fn compat_candidate(
    port_name: &str,
    ccho: &str,
    csim: &str,
    qesim: &str,
    eid: Option<String>,
    lpac_available: bool,
) -> (c: Option<EsimCompatCandidate>)
    ensures
        candidate_from(port_name@, ccho@, csim@, qesim@, opt_text(eid), lpac_available, c),
{
    let at_apdu = command_supported(ccho);
    let at_csim = command_supported(csim);
    let vendor_esim = vendor_esim_supported(qesim);
    let has_eid = eid.is_some();
    if !(at_apdu || at_csim || vendor_esim || has_eid) {
        return None;
    }
    let install_ready = lpac_available && (at_apdu || at_csim);
    let mut notes: Vec<Vec<char>> = Vec::new();
    if at_apdu {
        push_note(&mut notes, "CCHO/CGLA APDU");
    }
    if at_csim {
        push_note(&mut notes, "CSIM APDU");
    }
    if vendor_esim {
        push_note(&mut notes, "厂商 QESIM");
    }
    if has_eid {
        push_note(&mut notes, "EID 可读");
    }
    if lpac_available {
        push_note(&mut notes, "lpac 已发现");
    } else {
        push_note(&mut notes, "缺少 lpac");
    }
    assert(crate::text::views_of(notes@) =~= candidate_notes(
        at_apdu,
        at_csim,
        vendor_esim,
        has_eid,
        lpac_available,
    ));
    let note = crate::text::join_chars(&notes, " · ");
    Some(
        EsimCompatCandidate {
            port: crate::text::str_to_string(port_name),
            at_apdu,
            at_csim,
            vendor_esim,
            eid,
            lpac_available,
            install_ready,
            note: string_of(&note),
        },
    )
}

/// What a port probe finds from its replies: nothing unless the port answered
/// `AT` with `OK`; otherwise the candidate that the `AT+CCHO=?`, `AT+CSIM=?` and
/// `AT+QESIM=?` replies make, with the EID read from `eid_reply` only where
/// the vendor `QESIM` command is supported.
pub open spec fn probe_outcome(
    port: Seq<char>,
    at: Seq<char>,
    ccho: Seq<char>,
    csim: Seq<char>,
    qesim: Seq<char>,
    eid_reply: Seq<char>,
    lpac: bool,
    c: Option<EsimCompatCandidate>,
) -> bool {
    if !reply_ok(at) {
        c is None
    } else {
        candidate_from(
            port,
            ccho,
            csim,
            qesim,
            if reply_vendor_esim(qesim) {
                eid_in(eid_reply)
            } else {
                None
            },
            lpac,
            c,
        )
    }
}

/// The probe decision from the replies of one port; see `probe_outcome`. A
/// candidate always rests on at least one supported command: an EID never
/// makes one on its own.
pub fn probe_decision(
    port_name: &str,
    at: &str,
    ccho: &str,
    csim: &str,
    qesim: &str,
    eid_reply: &str,
    lpac_available: bool,
) -> (r: Option<EsimCompatCandidate>)
    ensures
        probe_outcome(port_name@, at@, ccho@, csim@, qesim@, eid_reply@, lpac_available, r),
        r is Some ==> reply_ok(at@) && (reply_supported(ccho@) || reply_supported(csim@)
            || reply_vendor_esim(qesim@)),
{
    if !command_ok(at) {
        return None;
    }
    let eid = if vendor_esim_supported(qesim) {
        extract_eid(eid_reply)
    } else {
        None
    };
    compat_candidate(port_name, ccho, csim, qesim, eid, lpac_available)
}

/// Where a port probe stands: the command last sent, and the replies so far.
#[derive(Debug, Clone)]
pub enum ProbeStage {
    /// `AT` was sent.
    Attention,
    /// `AT+CCHO=?` was sent.
    Channel { at: String },
    /// `AT+CSIM=?` was sent.
    Csim { at: String, ccho: String },
    /// `AT+QESIM=?` was sent.
    Vendor { at: String, ccho: String, csim: String },
    /// `AT+QESIM="eid"` was sent.
    Eid { at: String, ccho: String, csim: String, qesim: String },
}

/// What follows a probe reply: the next command, or the finding.
#[derive(Debug, Clone)]
pub enum ProbeStep {
    Send { stage: ProbeStage, command: String },
    Done(Option<EsimCompatCandidate>),
}

/// A reply as the probe reads it: a failed command counts as an empty reply.
pub open spec fn reply_or_empty(reply: Result<String, String>) -> Seq<char> {
    match reply {
        Ok(t) => t@,
        Err(_) => Seq::empty(),
    }
}

/// The first stage of a port probe and the command that opens it.
pub fn probe_start() -> (r: (ProbeStage, String))
    ensures
        r.0 is Attention,
        r.1@ == "AT"@,
{
    (ProbeStage::Attention, crate::text::str_to_string("AT"))
}

/// One step of a port probe. A port that does not answer `AT` with `OK` is
/// no candidate; otherwise the three capability queries follow, the EID is
/// asked for only where the vendor `QESIM` command is supported, and the
/// finding is `probe_outcome` of the replies.
pub fn probe_next(
    port_name: &str,
    stage: ProbeStage,
    reply: Result<String, String>,
    lpac_available: bool,
) -> (step: ProbeStep)
    ensures
        ({
            let t = reply_or_empty(reply);
            match stage {
                ProbeStage::Attention => if reply_ok(t) {
                    step matches ProbeStep::Send { stage: ProbeStage::Channel { at }, command } && at@
                        == t && command@ == "AT+CCHO=?"@
                } else {
                    step matches ProbeStep::Done(None)
                },
                ProbeStage::Channel { at } => step matches ProbeStep::Send {
                    stage: ProbeStage::Csim { at: a2, ccho },
                    command,
                } && a2 == at && ccho@ == t && command@ == "AT+CSIM=?"@,
                ProbeStage::Csim { at, ccho } => step matches ProbeStep::Send {
                    stage: ProbeStage::Vendor { at: a2, ccho: c2, csim },
                    command,
                } && a2 == at && c2 == ccho && csim@ == t && command@ == "AT+QESIM=?"@,
                ProbeStage::Vendor { at, ccho, csim } => if reply_vendor_esim(t) {
                    step matches ProbeStep::Send {
                        stage: ProbeStage::Eid { at: a2, ccho: c2, csim: s2, qesim },
                        command,
                    } && a2 == at && c2 == ccho && s2 == csim && qesim@ == t && command@
                        == "AT+QESIM=\"eid\""@
                } else {
                    step matches ProbeStep::Done(c) && probe_outcome(
                        port_name@,
                        at@,
                        ccho@,
                        csim@,
                        t,
                        Seq::empty(),
                        lpac_available,
                        c,
                    )
                },
                ProbeStage::Eid { at, ccho, csim, qesim } => step matches ProbeStep::Done(c)
                    && probe_outcome(port_name@, at@, ccho@, csim@, qesim@, t, lpac_available, c),
            }
        }),
{
    let text = match reply {
        Ok(t) => t,
        Err(_) => String::new(),
    };
    match stage {
        ProbeStage::Attention => {
            if command_ok(text.as_str()) {
                ProbeStep::Send {
                    stage: ProbeStage::Channel { at: text },
                    command: crate::text::str_to_string("AT+CCHO=?"),
                }
            } else {
                ProbeStep::Done(None)
            }
        },
        ProbeStage::Channel { at } => ProbeStep::Send {
            stage: ProbeStage::Csim { at, ccho: text },
            command: crate::text::str_to_string("AT+CSIM=?"),
        },
        ProbeStage::Csim { at, ccho } => ProbeStep::Send {
            stage: ProbeStage::Vendor { at, ccho, csim: text },
            command: crate::text::str_to_string("AT+QESIM=?"),
        },
        ProbeStage::Vendor { at, ccho, csim } => {
            if vendor_esim_supported(text.as_str()) {
                ProbeStep::Send {
                    stage: ProbeStage::Eid { at, ccho, csim, qesim: text },
                    command: crate::text::str_to_string("AT+QESIM=\"eid\""),
                }
            } else {
                ProbeStep::Done(
                    probe_decision(
                        port_name,
                        at.as_str(),
                        ccho.as_str(),
                        csim.as_str(),
                        text.as_str(),
                        "",
                        lpac_available,
                    ),
                )
            }
        },
        ProbeStage::Eid { at, ccho, csim, qesim } => ProbeStep::Done(
            probe_decision(
                port_name,
                at.as_str(),
                ccho.as_str(),
                csim.as_str(),
                qesim.as_str(),
                text.as_str(),
                lpac_available,
            ),
        ),
    }
}

// ---------------------------------------------------------------------------
// The native LPA.
// ---------------------------------------------------------------------------

/// End of the run of non-whitespace characters that starts at `i`.
pub open spec fn word_end(s: Seq<char>, i: int) -> int
    decreases s.len() - i,
{
    if 0 <= i < s.len() && !in_class(CharClass::Whitespace, s[i]) {
        word_end(s, i + 1)
    } else {
        i
    }
}

pub proof fn lemma_word_end(s: Seq<char>, i: int)
    requires
        0 <= i,
    ensures
        i <= word_end(s, i),
        i <= s.len() ==> word_end(s, i) <= s.len(),
    decreases s.len() - i,
{
    if i < s.len() && !in_class(CharClass::Whitespace, s[i]) {
        lemma_word_end(s, i + 1);
    }
}

/// A whitespace-separated word is a Windows build number of 24H2 or later.
pub open spec fn is_lpa_build(word: Seq<char>) -> bool {
    match parse_u32(word) {
        Some(b) => b >= NATIVE_LPA_MIN_BUILD,
        None => false,
    }
}

/// Some whitespace-separated word at or after `i` is such a build number.
pub open spec fn lpa_build_from(s: Seq<char>, i: int) -> bool
    decreases s.len() - i,
{
    if i < 0 || i >= s.len() {
        false
    } else if in_class(CharClass::Whitespace, s[i]) {
        lpa_build_from(s, i + 1)
    } else {
        let e = word_end(s, i + 1);
        proof {
            lemma_word_end(s, i + 1);
        }
        is_lpa_build(s.subrange(i, e)) || lpa_build_from(s, e)
    }
}

/// Reads the registry's `CurrentBuildNumber` query output: the native LPA is
/// there when some word of it is a build number of at least 26100.
pub fn build_supports_lpa(reg_output: &str) -> (b: bool)
    ensures
        b == lpa_build_from(reg_output@, 0),
{
    let s = chars_of(reg_output);
    let mut start: usize = 0;
    while start < s.len()
        invariant
            0 <= start <= s.len(),
            s@ == reg_output@,
            lpa_build_from(s@, 0) == lpa_build_from(s@, start as int),
        decreases s.len() - start,
    {
        if crate::text::char_in_class(CharClass::Whitespace, s[start]) {
            start = start + 1;
        } else {
            let mut end = start + 1;
            while end < s.len() && !crate::text::char_in_class(CharClass::Whitespace, s[end])
                invariant
                    start < end <= s.len(),
                    word_end(s@, start + 1) == word_end(s@, end as int),
                decreases s.len() - end,
            {
                end = end + 1;
            }
            let word = sub_chars(&s, start, end);
            match parse_u32_chars(&word) {
                Some(b) => {
                    if b >= NATIVE_LPA_MIN_BUILD {
                        return true;
                    }
                },
                None => {},
            }
            start = end;
        }
    }
    false
}

} // verus!
