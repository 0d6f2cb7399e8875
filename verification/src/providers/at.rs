//! Receive-only AT-command protocol for USB/COM modems: the unsolicited and
//! response lines a modem sends, and the records read from its SMS storage.
//!
//! Nothing here builds `AT+CMGS`: the command sets only configure reception.

use vstd::prelude::*;

use crate::model::{CellularDevice, DeviceCapabilities};
use crate::providers::ports::{SerialPortKind, SerialPortSummary};
use crate::providers::windows::{device_label, device_label_text, opt_text, signal_percent_of};
use crate::sms::inbox::{IncomingSms, IncomingView};
use crate::sms::pdu::DecodedPdu;
use crate::text::{
    lemma_decimal_digits, lemma_find_char_first, lemma_parse_decimal, lemma_skip_back_at_least,
    lemma_skip_from_stops, lemma_trim_idempotent, skip_class_back, skip_class_from, in_class, is_ascii_digit,
    str_lines, sub_bytes, append_chars, append_str, ascii_lower_chars, chars_eq_str, chars_of, contains_char, decimal,
    find_char, find_char_from, has_char, has_prefix, join, join_chars, lemma_find_char_from,
    lower_seq, parse_u32, parse_u32_chars, push_decimal, split_once, split_once_char,
    starts_with_str, string_of, strings_view, strip_prefix, strip_prefix_str, sub_chars, trim,
    trim_chars, trim_cls, trim_ws, views_of, before_char, before_char_chars, CharClass,
};

verus! {

/// A `+CMTI` new-message indication: the storage and index of the new SMS.
#[derive(Debug, Clone, PartialEq, Eq)]
pub struct CmtiNotification {
    pub storage: String,
    pub index: u32,
}

/// What one poll of an AT modem read.
#[derive(Debug, Clone, Default)]
pub struct AtPoll {
    pub messages: Vec<IncomingSms>,
    pub operator: Option<String>,
    pub signal: Option<u8>,
}

/// Commands that put a modem into text-mode reception.
pub const TEXT_MODE_INIT: [&'static str; 4] = ["AT", "ATE0", "AT+CMGF=1", "AT+CNMI=2,1,0,0,0"];

/// Commands that put a modem into PDU-mode reception.
pub const PDU_MODE_INIT: [&'static str; 4] = ["AT", "ATE0", "AT+CMGF=0", "AT+CNMI=2,1,0,0,0"];

pub open spec fn lines_view(lines: Seq<String>) -> Seq<Seq<char>> {
    strings_view(lines)
}

/// The trimmed payload of a response line that starts with `tag` once trimmed.
pub open spec fn header_payload(line: Seq<char>, tag: Seq<char>) -> Option<Seq<char>> {
    match strip_prefix(trim(line), tag) {
        Some(p) => Some(trim(p)),
        None => None,
    }
}

fn header_payload_chars(line: &Vec<char>, tag: &str) -> (r: Option<Vec<char>>)
    ensures
        r matches Some(v) ==> header_payload(line@, tag@) == Some(v@),
        r is None ==> header_payload(line@, tag@) is None,
{
    let t = trim_ws(line);
    match strip_prefix_str(&t, tag) {
        Some(p) => Some(trim_ws(&p)),
        None => None,
    }
}

/// The storage and index that a `+CMTI: "<storage>",<index>` line announces.
pub open spec fn cmti_of(line: Seq<char>) -> Option<(Seq<char>, u32)> {
    match header_payload(line, "+CMTI:"@) {
        None => None,
        Some(p) => match split_once(p, ',') {
            None => None,
            Some((st, ix)) => {
                let storage = trim(trim_cls(trim(st), CharClass::Quote));
                if storage.len() == 0 {
                    None
                } else {
                    match parse_u32(trim(ix)) {
                        Some(n) => Some((storage, n)),
                        None => None,
                    }
                }
            },
        },
    }
}

pub fn parse_cmti(line: &str) -> (r: Option<CmtiNotification>)
    ensures
        r matches Some(n) ==> cmti_of(line@) == Some((n.storage@, n.index)),
        r is None ==> cmti_of(line@) is None,
{
    let l = chars_of(line);
    let payload = match header_payload_chars(&l, "+CMTI:") {
        Some(p) => p,
        None => return None,
    };
    let (st, ix) = match split_once_char(&payload, ',') {
        Some(parts) => parts,
        None => return None,
    };
    let st1 = trim_ws(&st);
    let st2 = trim_chars(&st1, CharClass::Quote);
    let storage = trim_ws(&st2);
    if storage.len() == 0 {
        return None;
    }
    let ixt = trim_ws(&ix);
    match parse_u32_chars(&ixt) {
        Some(index) => Some(CmtiNotification { storage: string_of(&storage), index }),
        None => None,
    }
}

/// Signal quality in percent from `+CSQ: <rssi>,<ber>`: `rssi` 0..=31 maps
/// to `(rssi * 100 + 15) / 31`; 99 ("unknown") and anything else above 31 give `None`.
pub open spec fn csq_percent_of(line: Seq<char>) -> Option<u8> {
    match header_payload(line, "+CSQ:"@) {
        None => None,
        Some(p) => match parse_u32(trim(before_char(p, ','))) {
            Some(raw) => if raw <= 31 {
                Some(((raw * 100 + 15) / 31) as u8)
            } else {
                None
            },
            None => None,
        },
    }
}

/// A `+CSQ:` line gives what the signal mapping gives for the raw reading in
/// its first field.
pub proof fn lemma_csq_line_follows_signal_mapping(line: Seq<char>)
    ensures
        csq_percent_of(line) == match header_payload(line, "+CSQ:"@) {
            None => None,
            Some(p) => match parse_u32(trim(before_char(p, ','))) {
                Some(raw) => signal_percent_of(raw),
                None => None,
            },
        },
{
}

/// The signal mapping gives at most 100 percent, 0 for the weakest and 100 for
/// the strongest reading, and a stronger reading never gives less.
pub proof fn lemma_signal_percent_bounded_monotone(a: u32, b: u32)
    ensures
        signal_percent_of(a) matches Some(p) ==> p <= 100,
        a <= b <= 31 ==> signal_percent_of(a).unwrap() <= signal_percent_of(b).unwrap(),
        signal_percent_of(0) == Some(0u8),
        signal_percent_of(31) == Some(100u8),
{
    if a <= 31 {
        assert((a * 100 + 15) / 31 <= 100) by (nonlinear_arith)
            requires
                a <= 31,
        ;
    }
    if a <= b <= 31 {
        assert((a * 100 + 15) / 31 <= (b * 100 + 15) / 31) by (nonlinear_arith)
            requires
                a <= b <= 31,
        ;
        assert((b * 100 + 15) / 31 <= 100) by (nonlinear_arith)
            requires
                b <= 31,
        ;
    }
    assert((31 * 100 + 15) / 31 == 100) by (nonlinear_arith);
    assert((0 * 100 + 15) / 31 == 0) by (nonlinear_arith);
}

/// A `+CSQ: <raw>,<rest>` line as a modem prints it gives what the signal
/// mapping gives for `raw`, whatever follows the comma; so every percentage
/// read from such a line is at most 100 and grows with the raw reading.
pub proof fn lemma_csq_reply_percent(raw: u32, rest: Seq<char>)
    ensures
        csq_percent_of("+CSQ: "@ + decimal(raw as nat) + ","@ + rest) == signal_percent_of(raw),
{
    reveal_strlit("+CSQ: ");
    reveal_strlit("+CSQ:");
    reveal_strlit(",");
    let d = decimal(raw as nat);
    lemma_decimal_digits(raw as nat);
    let line = "+CSQ: "@ + d + ","@ + rest;
    let ws = CharClass::Whitespace;
    let c: int = 6 + d.len() as int;
    assert(line[0] == '+');
    assert(line[5] == ' ');
    assert(line[c] == ',');
    assert forall|i: int| 0 <= i < d.len() implies line[6 + i] == #[trigger] d[i] by {}
    // The line has no whitespace at its start, and keeps its comma when trimmed.
    assert(!in_class(ws, '+'));
    lemma_skip_from_stops(line, ws, 0);
    assert(!in_class(ws, ','));
    lemma_skip_back_at_least(line, ws, 0, line.len() as int, c);
    let e = skip_class_back(line, ws, 0, line.len() as int);
    let t = line.subrange(0, e);
    assert(trim(line) == t);
    assert(t.subrange(0, 5) =~= "+CSQ:"@);
    assert(has_prefix(t, "+CSQ:"@));
    let q = t.subrange(5, e);
    assert(strip_prefix(t, "+CSQ:"@) == Some(q));
    // The payload loses its leading space and keeps the digits and the comma.
    assert(q[0] == ' ');
    assert(in_class(ws, ' '));
    assert(q[1] == d[0]);
    assert(is_ascii_digit(d[0]));
    assert(!in_class(ws, q[1]));
    lemma_skip_from_stops(q, ws, 1);
    assert(skip_class_from(q, ws, 0) == 1);
    assert(q[c - 5] == ',');
    lemma_skip_back_at_least(q, ws, 1, q.len() as int, c - 5);
    let e2 = skip_class_back(q, ws, 1, q.len() as int);
    let p = q.subrange(1, e2);
    assert(trim(q) == p);
    assert(header_payload(line, "+CSQ:"@) == Some(p));
    // The first field is the decimal text.
    assert forall|j: int| 0 <= j < d.len() implies p[j] == #[trigger] d[j] by {
        assert(p[j] == line[6 + j]);
    }
    assert forall|j: int| 0 <= j < d.len() implies p[j] != ',' by {
        assert(p[j] == d[j]);
        assert(is_ascii_digit(d[j]));
    }
    assert(p[d.len() as int] == ',');
    lemma_find_char_first(p, ',', 0, d.len() as int);
    assert(before_char(p, ',') =~= d);
    assert(!in_class(ws, d[0]));
    assert(is_ascii_digit(d[d.len() - 1]));
    assert(!in_class(ws, d[d.len() - 1]));
    lemma_skip_from_stops(d, ws, 0);
    lemma_skip_back_at_least(d, ws, 0, d.len() as int, d.len() - 1);
    assert(trim(d) =~= d);
    lemma_parse_decimal(raw);
}

pub fn parse_csq_percent(line: &str) -> (r: Option<u8>)
    ensures
        r == csq_percent_of(line@),
{
    let l = chars_of(line);
    let payload = match header_payload_chars(&l, "+CSQ:") {
        Some(p) => p,
        None => return None,
    };
    let first = before_char_chars(&payload, ',');
    let first_t = trim_ws(&first);
    let raw = match parse_u32_chars(&first_t) {
        Some(v) => v,
        None => return None,
    };
    if raw > 31 {
        return None;
    }
    Some(((raw * 100 + 15) / 31) as u8)
}

/// The operator name between the first pair of quotes of a `+COPS:` line, trimmed.
pub open spec fn cops_operator_of(line: Seq<char>) -> Option<Seq<char>> {
    match header_payload(line, "+COPS:"@) {
        None => None,
        Some(p) => match find_char_from(p, '"', 0) {
            None => None,
            Some(a) => match find_char_from(p, '"', a + 1) {
                None => None,
                Some(e) => {
                    let op = trim(p.subrange(a + 1, e));
                    if op.len() == 0 {
                        None
                    } else {
                        Some(op)
                    }
                },
            },
        },
    }
}

pub fn parse_cops_operator(line: &str) -> (r: Option<String>)
    ensures
        r matches Some(s) ==> cops_operator_of(line@) == Some(s@),
        r is None ==> cops_operator_of(line@) is None,
{
    let l = chars_of(line);
    let payload = match header_payload_chars(&l, "+COPS:") {
        Some(p) => p,
        None => return None,
    };
    let a = match find_char(&payload, '"', 0) {
        Some(a) => a,
        None => return None,
    };
    proof {
        lemma_find_char_from(payload@, '"', 0);
    }
    let e = match find_char(&payload, '"', a + 1) {
        Some(e) => e,
        None => return None,
    };
    proof {
        lemma_find_char_from(payload@, '"', a + 1);
    }
    let inner = sub_chars(&payload, a + 1, e);
    let op = trim_ws(&inner);
    if op.len() == 0 {
        None
    } else {
        Some(string_of(&op))
    }
}

/// A line that, trimmed, is `OK` in any ASCII case.
pub open spec fn terminal_ok(line: Seq<char>) -> bool {
    lower_seq(trim(line)) == "ok"@
}

/// A line that, trimmed, is `ERROR` in any ASCII case or starts with `+CME ERROR:` or `+CMS ERROR:`.
pub open spec fn terminal_error(line: Seq<char>) -> bool {
    let t = trim(line);
    ||| lower_seq(t) == "error"@
    ||| has_prefix(t, "+CME ERROR:"@)
    ||| has_prefix(t, "+CMS ERROR:"@)
}

pub fn terminal_ok_chars(line: &Vec<char>) -> (b: bool)
    ensures
        b == terminal_ok(line@),
{
    let t = trim_ws(line);
    let l = ascii_lower_chars(&t);
    chars_eq_str(&l, "ok")
}

pub fn terminal_error_chars(line: &Vec<char>) -> (b: bool)
    ensures
        b == terminal_error(line@),
{
    let t = trim_ws(line);
    let l = ascii_lower_chars(&t);
    chars_eq_str(&l, "error") || starts_with_str(&t, "+CME ERROR:") || starts_with_str(
        &t,
        "+CMS ERROR:",
    )
}

pub fn is_terminal_ok(line: &str) -> (b: bool)
    ensures
        b == terminal_ok(line@),
{
    let l = chars_of(line);
    terminal_ok_chars(&l)
}

pub fn is_terminal_error(line: &str) -> (b: bool)
    ensures
        b == terminal_error(line@),
{
    let l = chars_of(line);
    terminal_error_chars(&l)
}

// ---------------------------------------------------------------------------
// Comma-separated fields with quoting.
// ---------------------------------------------------------------------------

/// The state of a left-to-right scan of comma-separated fields.
pub struct FieldScan {
    pub done: Seq<Seq<char>>,
    pub current: Seq<char>,
    pub quoted: bool,
}

/// A finished field: trimmed, then (where `strip_quotes`) stripped of surrounding quotes.
pub open spec fn clean_field(f: Seq<char>, strip_quotes: bool) -> Seq<char> {
    if strip_quotes {
        trim_cls(trim(f), CharClass::Quote)
    } else {
        trim(f)
    }
}

/// Splits at commas outside double quotes; quote characters are dropped.
pub open spec fn scan_fields(s: Seq<char>, strip_quotes: bool) -> FieldScan
    decreases s.len(),
{
    if s.len() == 0 {
        FieldScan { done: Seq::empty(), current: Seq::empty(), quoted: false }
    } else {
        let st = scan_fields(s.drop_last(), strip_quotes);
        let c = s.last();
        if c == '"' {
            FieldScan { quoted: !st.quoted, ..st }
        } else if c == ',' && !st.quoted {
            FieldScan {
                done: st.done.push(clean_field(st.current, strip_quotes)),
                current: Seq::empty(),
                ..st
            }
        } else {
            FieldScan { current: st.current.push(c), ..st }
        }
    }
}

/// The comma-separated fields of an AT response header, each trimmed and,
/// where `strip_quotes`, stripped of surrounding quotes.
pub open spec fn split_fields(s: Seq<char>, strip_quotes: bool) -> Seq<Seq<char>> {
    let st = scan_fields(s, strip_quotes);
    st.done.push(clean_field(st.current, strip_quotes))
}

/// The fields of an AT response header.
pub open spec fn fields_of(s: Seq<char>) -> Seq<Seq<char>> {
    split_fields(s, true)
}

fn clean_field_chars(f: &Vec<char>, strip_quotes: bool) -> (r: Vec<char>)
    ensures
        r@ == clean_field(f@, strip_quotes),
{
    let t = trim_ws(f);
    if strip_quotes {
        trim_chars(&t, CharClass::Quote)
    } else {
        t
    }
}

pub fn split_field_chars(input: &Vec<char>, strip_quotes: bool) -> (r: Vec<Vec<char>>)
    ensures
        views_of(r@) == split_fields(input@, strip_quotes),
{
    let mut done: Vec<Vec<char>> = Vec::new();
    let mut current: Vec<char> = Vec::new();
    let mut quoted = false;
    let mut i: usize = 0;
    while i < input.len()
        invariant
            0 <= i <= input.len(),
            views_of(done@) == scan_fields(input@.take(i as int), strip_quotes).done,
            current@ == scan_fields(input@.take(i as int), strip_quotes).current,
            quoted == scan_fields(input@.take(i as int), strip_quotes).quoted,
        decreases input.len() - i,
    {
        let ghost pre = input@.take(i as int);
        let ghost nxt = input@.take(i + 1);
        assert(nxt.drop_last() =~= pre);
        assert(nxt.last() == input@[i as int]);
        let c = input[i];
        if c == '"' {
            quoted = !quoted;
        } else if c == ',' && !quoted {
            let cleaned = clean_field_chars(&current, strip_quotes);
            let ghost before = views_of(done@);
            done.push(cleaned);
            assert(views_of(done@) =~= before.push(cleaned@));
            current = Vec::new();
        } else {
            current.push(c);
        }
        i = i + 1;
    }
    assert(input@.take(input.len() as int) =~= input@);
    let last = clean_field_chars(&current, strip_quotes);
    let ghost before = views_of(done@);
    done.push(last);
    assert(views_of(done@) =~= before.push(last@));
    done
}

pub fn quoted_fields(input: &str) -> (r: Vec<String>)
    ensures
        strings_view(r@) == fields_of(input@),
{
    let v = chars_of(input);
    let fields = split_field_chars(&v, true);
    to_strings(&fields)
}

pub fn to_strings(v: &Vec<Vec<char>>) -> (r: Vec<String>)
    ensures
        strings_view(r@) == views_of(v@),
{
    let mut r: Vec<String> = Vec::new();
    let mut i: usize = 0;
    while i < v.len()
        invariant
            0 <= i <= v.len(),
            strings_view(r@) == views_of(v@.take(i as int)),
        decreases v.len() - i,
    {
        let ghost before = strings_view(r@);
        let s = string_of(&v[i]);
        r.push(s);
        assert(strings_view(r@) =~= before.push(v@[i as int]@));
        assert(views_of(v@.take(i + 1)) =~= views_of(v@.take(i as int)).push(v@[i as int]@));
        i = i + 1;
    }
    assert(v@.take(v.len() as int) =~= v@);
    r
}

/// A field that looks like an SCTS timestamp: it holds both `/` and `:`.
pub open spec fn is_stamp(f: Seq<char>) -> bool {
    has_char(f, '/') && has_char(f, ':')
}

/// The last field that looks like a timestamp.
pub open spec fn last_stamp(fs: Seq<Seq<char>>) -> Option<Seq<char>>
    decreases fs.len(),
{
    if fs.len() == 0 {
        None
    } else if is_stamp(fs.last()) {
        Some(fs.last())
    } else {
        last_stamp(fs.drop_last())
    }
}

fn last_stamp_chars(fs: &Vec<Vec<char>>) -> (r: Vec<char>)
    ensures
        last_stamp(views_of(fs@)) matches Some(t) ==> r@ == t,
        last_stamp(views_of(fs@)) is None ==> r@ == Seq::<char>::empty(),
{
    let mut j = fs.len();
    assert(views_of(fs@).take(fs.len() as int) =~= views_of(fs@));
    while j > 0
        invariant
            0 <= j <= fs.len(),
            last_stamp(views_of(fs@)) == last_stamp(views_of(fs@).take(j as int)),
        decreases j,
    {
        let ghost pre = views_of(fs@).take(j as int);
        assert(pre.drop_last() =~= views_of(fs@).take(j - 1));
        assert(pre.last() == fs@[j - 1]@);
        if contains_char(&fs[j - 1], '/') && contains_char(&fs[j - 1], ':') {
            return sub_chars(&fs[j - 1], 0, fs[j - 1].len());
        }
        j = j - 1;
    }
    Vec::new()
}

pub open spec fn stamp_or_empty(fs: Seq<Seq<char>>) -> Seq<char> {
    match last_stamp(fs) {
        Some(t) => t,
        None => Seq::empty(),
    }
}

// ---------------------------------------------------------------------------
// Text-mode CMGL / CMGR records.
// ---------------------------------------------------------------------------

/// A line that ends the body of a text-mode `+CMGL` record.
pub open spec fn ends_cmgl_body(l: Seq<char>) -> bool {
    let c = trim(l);
    has_prefix(c, "+CMGL:"@) || terminal_ok(c) || terminal_error(c)
}

/// First line at or after `j` that ends a `+CMGL` record body.
pub open spec fn cmgl_body_end(ls: Seq<Seq<char>>, j: int) -> int
    decreases ls.len() - j,
{
    if 0 <= j < ls.len() && !ends_cmgl_body(ls[j]) {
        cmgl_body_end(ls, j + 1)
    } else {
        j
    }
}

pub proof fn lemma_cmgl_body_end(ls: Seq<Seq<char>>, j: int)
    requires
        0 <= j,
    ensures
        j <= cmgl_body_end(ls, j),
        j <= ls.len() ==> cmgl_body_end(ls, j) <= ls.len(),
    decreases ls.len() - j,
{
    if 0 <= j < ls.len() && !ends_cmgl_body(ls[j]) {
        lemma_cmgl_body_end(ls, j + 1);
    }
}

/// The trimmed, non-empty lines among `ls[a..b]`.
pub open spec fn body_lines(ls: Seq<Seq<char>>, a: int, b: int) -> Seq<Seq<char>>
    decreases b - a,
{
    if b <= a {
        Seq::empty()
    } else {
        let rest = body_lines(ls, a, b - 1);
        let c = trim(ls[b - 1]);
        if c.len() > 0 {
            rest.push(c)
        } else {
            rest
        }
    }
}

/// The source key of a text-mode record: port, storage index, sender and timestamp.
pub open spec fn text_source_key(
    port: Seq<char>,
    storage_index: Seq<char>,
    sender: Seq<char>,
    stamp: Seq<char>,
) -> Seq<char> {
    "at:"@ + port + ":"@ + "text"@ + ":"@ + storage_index + ":"@ + sender + ":"@ + stamp
}

/// The message of one `+CMGL` text record with the header `header` and body lines `body`.
pub open spec fn cmgl_record(port: Seq<char>, header: Seq<char>, body: Seq<Seq<char>>) -> IncomingView {
    let fields = fields_of(trim(header));
    let storage_index = if fields.len() > 0 {
        fields[0]
    } else {
        "?"@
    };
    let sender = if fields.len() > 2 {
        fields[2]
    } else {
        "Unknown"@
    };
    IncomingView {
        source_key: text_source_key(port, storage_index, sender, stamp_or_empty(fields)),
        sender: sender,
        body: join(body, "\n"@),
        received_at: None,
        concatenation: None,
    }
}

/// The messages of the text-mode `+CMGL` records at or after line `i`.
pub open spec fn text_cmgl_from(port: Seq<char>, ls: Seq<Seq<char>>, i: int) -> Seq<IncomingView>
    decreases ls.len() - i,
{
    if i < 0 || i >= ls.len() {
        Seq::empty()
    } else {
        match strip_prefix(trim(ls[i]), "+CMGL:"@) {
            None => text_cmgl_from(port, ls, i + 1),
            Some(h) => {
                let e = cmgl_body_end(ls, i + 1);
                proof {
                    lemma_cmgl_body_end(ls, i + 1);
                }
                seq![cmgl_record(port, h, body_lines(ls, i + 1, e))] + text_cmgl_from(port, ls, e)
            },
        }
    }
}

/// The number of lines from `i` on that, trimmed, start with `+CMGL:`.
pub open spec fn cmgl_header_count(ls: Seq<Seq<char>>, i: int) -> nat
    decreases ls.len() - i,
{
    if i < 0 || i >= ls.len() {
        0
    } else if has_prefix(trim(ls[i]), "+CMGL:"@) {
        1 + cmgl_header_count(ls, i + 1)
    } else {
        cmgl_header_count(ls, i + 1)
    }
}

/// A record body never passes a `+CMGL:` line: there is none before the end of the body.
proof fn lemma_body_has_no_header(ls: Seq<Seq<char>>, j: int)
    requires
        0 <= j <= ls.len(),
    ensures
        cmgl_header_count(ls, j) == cmgl_header_count(ls, cmgl_body_end(ls, j)),
    decreases ls.len() - j,
{
    if j < ls.len() && !ends_cmgl_body(ls[j]) {
        lemma_body_has_no_header(ls, j + 1);
    }
}

/// A text-mode listing gives one record per line that, trimmed, starts with
/// `+CMGL:`: a record's body ends at the next such line, so no message is
/// lost into the body of the one before it.
pub proof fn lemma_one_record_per_cmgl_header(port: Seq<char>, ls: Seq<Seq<char>>, i: int)
    requires
        0 <= i <= ls.len(),
    ensures
        text_cmgl_from(port, ls, i).len() == cmgl_header_count(ls, i),
    decreases ls.len() - i,
{
    if i < ls.len() {
        match strip_prefix(trim(ls[i]), "+CMGL:"@) {
            None => {
                lemma_one_record_per_cmgl_header(port, ls, i + 1);
            },
            Some(h) => {
                lemma_cmgl_body_end(ls, i + 1);
                let e = cmgl_body_end(ls, i + 1);
                lemma_body_has_no_header(ls, i + 1);
                lemma_one_record_per_cmgl_header(port, ls, e);
            },
        }
    }
}

/// A line of message text in a listing: non-blank once trimmed, and neither
/// a `+CMGL:` header nor `OK`, `ERROR`, `+CME ERROR:` or `+CMS ERROR:`.
pub open spec fn text_line(l: Seq<char>) -> bool {
    let t = trim(l);
    &&& t.len() > 0
    &&& !has_prefix(t, "+CMGL:"@)
    &&& lower_seq(t) != "ok"@
    &&& lower_seq(t) != "error"@
    &&& !has_prefix(t, "+CME ERROR:"@)
    &&& !has_prefix(t, "+CMS ERROR:"@)
}

/// A line inside a record: blank, or message text.
pub open spec fn body_line(l: Seq<char>) -> bool {
    trim(l).len() == 0 || text_line(l)
}

proof fn lemma_body_end_at(ls: Seq<Seq<char>>, a: int, j: int)
    requires
        0 <= a <= j <= ls.len(),
        forall|k: int| a <= k < j ==> body_line(#[trigger] ls[k]),
        j == ls.len() || has_prefix(trim(ls[j]), "+CMGL:"@) || lower_seq(trim(ls[j])) == "ok"@,
    ensures
        cmgl_body_end(ls, a) == j,
    decreases j - a,
{
    if a < j {
        assert(body_line(ls[a]));
        lemma_trim_idempotent(ls[a]);
        if trim(ls[a]).len() == 0 {
            reveal_strlit("+CMGL:");
            reveal_strlit("ok");
            reveal_strlit("error");
            reveal_strlit("+CME ERROR:");
            reveal_strlit("+CMS ERROR:");
            assert(lower_seq(trim(trim(ls[a]))).len() == 0);
        }
        assert(!ends_cmgl_body(ls[a]));
        lemma_body_end_at(ls, a + 1, j);
    } else if j < ls.len() {
        lemma_trim_idempotent(ls[j]);
        assert(ends_cmgl_body(ls[j]));
    }
}

/// The texts that are not empty, in order.
pub open spec fn drop_blank(v: Seq<Seq<char>>) -> Seq<Seq<char>> {
    v.filter(|t: Seq<char>| t.len() > 0)
}

/// The lines `ls[a..b]` trimmed, in order, without the blank ones.
pub open spec fn non_blank_trims(ls: Seq<Seq<char>>, a: int, b: int) -> Seq<Seq<char>> {
    drop_blank(Seq::new((b - a) as nat, |k: int| trim(ls[a + k])))
}

proof fn lemma_body_lines_all(ls: Seq<Seq<char>>, a: int, b: int)
    requires
        0 <= a <= b <= ls.len(),
    ensures
        body_lines(ls, a, b) == non_blank_trims(ls, a, b),
    decreases b - a,
{
    reveal(Seq::filter);
    let all = Seq::new((b - a) as nat, |k: int| trim(ls[a + k]));
    if a < b {
        lemma_body_lines_all(ls, a, b - 1);
        assert(all.drop_last() =~= Seq::new((b - 1 - a) as nat, |k: int| trim(ls[a + k])));
        assert(all.last() == trim(ls[b - 1]));
        assert(non_blank_trims(ls, a, b - 1) == drop_blank(all.drop_last()));
        assert(drop_blank(all) == if all.last().len() > 0 {
            drop_blank(all.drop_last()).push(all.last())
        } else {
            drop_blank(all.drop_last())
        });
    } else {
        assert(all.len() == 0);
    }
}

/// The body of a `+CMGL` record is its following lines of message text,
/// trimmed, blank ones left out, and joined by line breaks, up to the next
/// header, the next `OK` or the end of the listing; the records after it
/// start from there.
pub proof fn lemma_cmgl_record_body(port: Seq<char>, ls: Seq<Seq<char>>, i: int, j: int)
    requires
        0 <= i < j <= ls.len(),
        has_prefix(trim(ls[i]), "+CMGL:"@),
        forall|k: int| i < k < j ==> body_line(#[trigger] ls[k]),
        j == ls.len() || has_prefix(trim(ls[j]), "+CMGL:"@) || lower_seq(trim(ls[j])) == "ok"@,
    ensures
        text_cmgl_from(port, ls, i).len() >= 1,
        text_cmgl_from(port, ls, i)[0].body == join(non_blank_trims(ls, i + 1, j), "\n"@),
        text_cmgl_from(port, ls, i).drop_first() == text_cmgl_from(port, ls, j),
{
    lemma_body_end_at(ls, i + 1, j);
    lemma_body_lines_all(ls, i + 1, j);
    let h = strip_prefix(trim(ls[i]), "+CMGL:"@).unwrap();
    let rec = cmgl_record(port, h, body_lines(ls, i + 1, j));
    assert(text_cmgl_from(port, ls, i) == seq![rec] + text_cmgl_from(port, ls, j));
    assert((seq![rec] + text_cmgl_from(port, ls, j)).drop_first() =~= text_cmgl_from(port, ls, j));
}

pub open spec fn incoming_views(v: Seq<IncomingSms>) -> Seq<IncomingView> {
    v.map_values(|m: IncomingSms| m@)
}

pub fn line_chars(lines: &[String], i: usize) -> (r: Vec<char>)
    requires
        i < lines@.len(),
    ensures
        r@ == lines_view(lines@)[i as int],
{
    chars_of(lines[i].as_str())
}

/// Reads the text-mode `+CMGL` listing: each header line and the body lines
/// that follow it, up to the next header or the final result code. Repeated
/// body lines are kept.
pub fn parse_text_cmgl(port_name: &str, lines: &[String]) -> (r: Vec<IncomingSms>)
    ensures
        incoming_views(r@) == text_cmgl_from(port_name@, lines_view(lines@), 0),
{
    let ghost ls = lines_view(lines@);
    let mut messages: Vec<IncomingSms> = Vec::new();
    let mut index: usize = 0;
    while index < lines.len()
        invariant
            0 <= index <= lines@.len(),
            ls == lines_view(lines@),
            incoming_views(messages@) + text_cmgl_from(port_name@, ls, index as int)
                == text_cmgl_from(port_name@, ls, 0),
        decreases lines@.len() - index,
    {
        let line = line_chars(lines, index);
        let trimmed = trim_ws(&line);
        let header = match strip_prefix_str(&trimmed, "+CMGL:") {
            Some(h) => h,
            None => {
                index = index + 1;
                continue;
            },
        };
        let start = index + 1;
        let ghost i0 = index as int;
        index = index + 1;
        let mut body: Vec<Vec<char>> = Vec::new();
        while index < lines.len()
            invariant
                start <= index <= lines@.len(),
                start == i0 + 1,
                ls == lines_view(lines@),
                views_of(body@) == body_lines(ls, start as int, index as int),
                cmgl_body_end(ls, start as int) == cmgl_body_end(ls, index as int),
            ensures
                start <= index <= lines@.len(),
                views_of(body@) == body_lines(ls, start as int, index as int),
                index as int == cmgl_body_end(ls, start as int),
            decreases lines@.len() - index,
        {
            let cand_line = line_chars(lines, index);
            let candidate = trim_ws(&cand_line);
            if starts_with_str(&candidate, "+CMGL:") || terminal_ok_chars(&candidate)
                || terminal_error_chars(&candidate) {
                assert(ends_cmgl_body(ls[index as int]));
                break;
            }
            if candidate.len() > 0 {
                let ghost before = views_of(body@);
                body.push(candidate);
                assert(views_of(body@) =~= before.push(trim(ls[index as int])));
            }
            index = index + 1;
        }
        assert(index as int == cmgl_body_end(ls, start as int));
        let record = text_record(port_name, &header, &body);
        let ghost before = incoming_views(messages@);
        messages.push(record);
        assert(incoming_views(messages@) =~= before.push(record@));
        proof {
            lemma_cmgl_body_end(ls, i0 + 1);
            assert(text_cmgl_from(port_name@, ls, i0) == seq![record@] + text_cmgl_from(
                port_name@,
                ls,
                index as int,
            ));
        }
        assert(incoming_views(messages@) + text_cmgl_from(port_name@, ls, index as int) =~= before
            + text_cmgl_from(port_name@, ls, i0));
    }
    assert(incoming_views(messages@) + text_cmgl_from(port_name@, ls, index as int)
        =~= incoming_views(messages@));
    messages
}

fn text_record(port_name: &str, header: &Vec<char>, body: &Vec<Vec<char>>) -> (r: IncomingSms)
    ensures
        r@ == cmgl_record(port_name@, header@, views_of(body@)),
{
    let h = trim_ws(header);
    let fields = split_field_chars(&h, true);
    let ghost fv = views_of(fields@);
    proof {
        if fields.len() > 0 {
            assert(fv[0] == fields@[0]@);
        }
        if fields.len() > 2 {
            assert(fv[2] == fields@[2]@);
        }
    }
    let storage_index = if fields.len() > 0 {
        sub_chars(&fields[0], 0, fields[0].len())
    } else {
        chars_of("?")
    };
    let sender = if fields.len() > 2 {
        sub_chars(&fields[2], 0, fields[2].len())
    } else {
        chars_of("Unknown")
    };
    let stamp = last_stamp_chars(&fields);
    let key = source_key_chars(port_name, "text", &storage_index, &sender, &stamp);
    let joined = join_chars(body, "\n");
    let r = IncomingSms {
        source_key: string_of(&key),
        sender: string_of(&sender),
        body: string_of(&joined),
        received_at: None,
        concatenation: None,
    };
    let ghost exp = cmgl_record(port_name@, header@, views_of(body@));
    assert(fv == fields_of(trim(header@)));
    assert(stamp@ == stamp_or_empty(fv));
    assert(r@.sender == exp.sender);
    assert(r@.body == exp.body);
    assert(r@.source_key == exp.source_key);
    r
}

fn source_key_chars(
    port_name: &str,
    mode: &str,
    storage_index: &Vec<char>,
    a: &Vec<char>,
    b: &Vec<char>,
) -> (r: Vec<char>)
    ensures
        r@ == "at:"@ + port_name@ + ":"@ + mode@ + ":"@ + storage_index@ + ":"@ + a@ + ":"@ + b@,
{
    let mut k: Vec<char> = Vec::new();
    append_str(&mut k, "at:");
    append_str(&mut k, port_name);
    append_str(&mut k, ":");
    append_str(&mut k, mode);
    append_str(&mut k, ":");
    append_chars(&mut k, storage_index);
    append_str(&mut k, ":");
    append_chars(&mut k, a);
    append_str(&mut k, ":");
    append_chars(&mut k, b);
    k
}

/// First line at or after `i` that, trimmed, starts with `+CMGR:`.
pub open spec fn cmgr_header_from(ls: Seq<Seq<char>>, i: int) -> Option<int>
    decreases ls.len() - i,
{
    if i < 0 || i >= ls.len() {
        None
    } else if has_prefix(trim(ls[i]), "+CMGR:"@) {
        Some(i)
    } else {
        cmgr_header_from(ls, i + 1)
    }
}

pub proof fn lemma_cmgr_header_from(ls: Seq<Seq<char>>, i: int)
    requires
        0 <= i,
    ensures
        cmgr_header_from(ls, i) matches Some(h) ==> i <= h < ls.len() && has_prefix(
            trim(ls[h]),
            "+CMGR:"@,
        ),
    decreases ls.len() - i,
{
    if 0 <= i < ls.len() && !has_prefix(trim(ls[i]), "+CMGR:"@) {
        lemma_cmgr_header_from(ls, i + 1);
    }
}

/// First line at or after `j` that is a final result code.
pub open spec fn result_code_from(ls: Seq<Seq<char>>, j: int) -> int
    decreases ls.len() - j,
{
    if 0 <= j < ls.len() && !terminal_ok(ls[j]) && !terminal_error(ls[j]) {
        result_code_from(ls, j + 1)
    } else {
        j
    }
}

/// The message of a text-mode `+CMGR` response for storage index `storage_index`.
pub open spec fn text_cmgr_of(port: Seq<char>, storage_index: u32, ls: Seq<Seq<char>>) -> Option<
    IncomingView,
> {
    match cmgr_header_from(ls, 0) {
        None => None,
        Some(h) => {
            let header = trim(strip_prefix(trim(ls[h]), "+CMGR:"@).unwrap());
            let fields = fields_of(header);
            let sender = if fields.len() > 1 && fields[1].len() > 0 {
                fields[1]
            } else {
                "Unknown"@
            };
            Some(
                IncomingView {
                    source_key: text_source_key(
                        port,
                        decimal(storage_index as nat),
                        sender,
                        stamp_or_empty(fields),
                    ),
                    sender: sender,
                    body: join(body_lines(ls, h + 1, result_code_from(ls, h + 1)), "\n"@),
                    received_at: None,
                    concatenation: None,
                },
            )
        },
    }
}

/// Reads a text-mode `+CMGR` response: the header's sender and timestamp and
/// the non-empty body lines up to the final result code.
pub fn parse_text_cmgr(port_name: &str, storage_index: u32, lines: &[String]) -> (r: Option<
    IncomingSms,
>)
    ensures
        r matches Some(m) ==> text_cmgr_of(port_name@, storage_index, lines_view(lines@)) == Some(
            m@,
        ),
        r is None ==> text_cmgr_of(port_name@, storage_index, lines_view(lines@)) is None,
{
    let ghost ls = lines_view(lines@);
    let mut h: usize = 0;
    while h < lines.len()
        invariant
            0 <= h <= lines@.len(),
            ls == lines_view(lines@),
            cmgr_header_from(ls, 0) == cmgr_header_from(ls, h as int),
        ensures
            0 <= h <= lines@.len(),
            cmgr_header_from(ls, 0) == cmgr_header_from(ls, h as int),
            h < lines@.len() ==> has_prefix(trim(ls[h as int]), "+CMGR:"@),
        decreases lines@.len() - h,
    {
        let l = line_chars(lines, h);
        let t = trim_ws(&l);
        if starts_with_str(&t, "+CMGR:") {
            break;
        }
        h = h + 1;
    }
    if h >= lines.len() {
        return None;
    }
    proof {
        lemma_cmgr_header_from(ls, 0);
    }
    let l = line_chars(lines, h);
    let t = trim_ws(&l);
    let rest = match strip_prefix_str(&t, "+CMGR:") {
        Some(p) => p,
        None => return None,
    };
    let header = trim_ws(&rest);
    let fields = split_field_chars(&header, true);
    let ghost fv = views_of(fields@);
    proof {
        if fields.len() > 1 {
            assert(fv[1] == fields@[1]@);
        }
    }
    let sender = if fields.len() > 1 && fields[1].len() > 0 {
        sub_chars(&fields[1], 0, fields[1].len())
    } else {
        chars_of("Unknown")
    };
    let stamp = last_stamp_chars(&fields);
    let mut body: Vec<Vec<char>> = Vec::new();
    let start = h + 1;
    let mut j = start;
    while j < lines.len()
        invariant
            start <= j <= lines@.len(),
            ls == lines_view(lines@),
            views_of(body@) == body_lines(ls, start as int, j as int),
            result_code_from(ls, start as int) == result_code_from(ls, j as int),
        ensures
            start <= j <= lines@.len(),
            views_of(body@) == body_lines(ls, start as int, j as int),
            j as int == result_code_from(ls, start as int),
        decreases lines@.len() - j,
    {
        let line = line_chars(lines, j);
        if terminal_ok_chars(&line) || terminal_error_chars(&line) {
            break;
        }
        let c = trim_ws(&line);
        if c.len() > 0 {
            let ghost before = views_of(body@);
            body.push(c);
            assert(views_of(body@) =~= before.push(trim(ls[j as int])));
        }
        j = j + 1;
    }
    let mut idx: Vec<char> = Vec::new();
    push_decimal(&mut idx, storage_index as u64);
    let key = source_key_chars(port_name, "text", &idx, &sender, &stamp);
    let joined = join_chars(&body, "\n");
    let r = IncomingSms {
        source_key: string_of(&key),
        sender: string_of(&sender),
        body: string_of(&joined),
        received_at: None,
        concatenation: None,
    };
    proof {
        let exp = text_cmgr_of(port_name@, storage_index, ls).unwrap();
        assert(fv == fields_of(header@));
        assert(r@.sender == exp.sender);
        assert(r@.body == exp.body);
        assert(idx@ == decimal(storage_index as nat));
        assert(r@.source_key == exp.source_key);
    }
    Some(r)
}

pub open spec fn all_hex(s: Seq<char>) -> bool {
    forall|i: int| 0 <= i < s.len() ==> crate::text::is_ascii_hexdigit(#[trigger] s[i])
}

/// A PDU line: at least four hexadecimal digits, an even number of them.
pub open spec fn is_hex_pdu(s: Seq<char>) -> bool {
    s.len() >= 4 && s.len() % 2 == 0 && all_hex(s)
}

fn hex_pdu_chars(v: &Vec<char>) -> (b: bool)
    ensures
        b == is_hex_pdu(v@),
{
    if v.len() < 4 || v.len() % 2 != 0 {
        return false;
    }
    let mut i: usize = 0;
    while i < v.len()
        invariant
            0 <= i <= v.len(),
            forall|k: int| 0 <= k < i ==> crate::text::is_ascii_hexdigit(#[trigger] v@[k]),
        decreases v.len() - i,
    {
        if !crate::text::char_is_ascii_hexdigit(v[i]) {
            return false;
        }
        i = i + 1;
    }
    true
}

pub fn looks_like_hex_pdu(value: &str) -> (b: bool)
    ensures
        b == is_hex_pdu(value@),
{
    let v = chars_of(value);
    hex_pdu_chars(&v)
}

/// The port name of an `at:<port>` device id.
pub open spec fn port_name_of(device_id: Seq<char>) -> Result<Seq<char>, Seq<char>> {
    match strip_prefix(device_id, "at:"@) {
        None => Err("not an AT provider device id"@),
        Some(p) => if trim(p).len() == 0 {
            Err("AT device id has an empty port name"@)
        } else {
            Ok(p)
        },
    }
}

pub fn port_name_from_id(device_id: &str) -> (r: Result<String, String>)
    ensures
        r matches Ok(p) ==> port_name_of(device_id@) == Ok::<Seq<char>, Seq<char>>(p@),
        r matches Err(e) ==> port_name_of(device_id@) == Err::<Seq<char>, Seq<char>>(e@),
{
    let id = chars_of(device_id);
    let p = match strip_prefix_str(&id, "at:") {
        Some(p) => p,
        None => return Err(crate::text::str_to_string("not an AT provider device id")),
    };
    let t = trim_ws(&p);
    if t.len() == 0 {
        return Err(crate::text::str_to_string("AT device id has an empty port name"));
    }
    Ok(string_of(&p))
}

/// A storage name that may be put into `AT+CPMS="<name>"`: 1 to 8 ASCII letters or digits.
pub open spec fn is_storage_name(s: Seq<char>) -> bool {
    0 < s.len() <= 8 && forall|i: int|
        0 <= i < s.len() ==> crate::text::is_ascii_alphanumeric(#[trigger] s[i])
}

pub fn valid_storage_name(storage: &str) -> (b: bool)
    ensures
        b == is_storage_name(storage@),
{
    let v = chars_of(storage);
    if v.len() == 0 || v.len() > 8 {
        return false;
    }
    let mut i: usize = 0;
    while i < v.len()
        invariant
            0 <= i <= v.len(),
            v@ == storage@,
            forall|k: int| 0 <= k < i ==> crate::text::is_ascii_alphanumeric(#[trigger] v@[k]),
        decreases v.len() - i,
    {
        if !crate::text::char_is_ascii_alphanumeric(v[i]) {
            assert(!crate::text::is_ascii_alphanumeric(v@[i as int]));
            return false;
        }
        i = i + 1;
    }
    true
}

/// `Ok` when some line is `OK`; otherwise the command's failure with the last line.
pub open spec fn require_ok_of(ls: Seq<Seq<char>>, command_name: Seq<char>) -> Result<
    (),
    Seq<char>,
> {
    if exists|i: int| 0 <= i < ls.len() && terminal_ok(#[trigger] ls[i]) {
        Ok(())
    } else {
        Err(
            command_name + " failed: "@ + if ls.len() > 0 {
                ls.last()
            } else {
                "no response"@
            },
        )
    }
}

pub fn require_ok(lines: &[String], command_name: &str) -> (r: Result<(), String>)
    ensures
        r is Ok ==> require_ok_of(lines_view(lines@), command_name@) is Ok,
        r matches Err(e) ==> require_ok_of(lines_view(lines@), command_name@) == Err::<
            (),
            Seq<char>,
        >(e@),
{
    let ghost ls = lines_view(lines@);
    let mut i: usize = 0;
    while i < lines.len()
        invariant
            0 <= i <= lines@.len(),
            ls == lines_view(lines@),
            forall|k: int| 0 <= k < i ==> !terminal_ok(#[trigger] ls[k]),
        decreases lines@.len() - i,
    {
        let l = line_chars(lines, i);
        if terminal_ok_chars(&l) {
            return Ok(());
        }
        i = i + 1;
    }
    let mut msg: Vec<char> = Vec::new();
    append_str(&mut msg, command_name);
    append_str(&mut msg, " failed: ");
    if lines.len() > 0 {
        let last = line_chars(lines, lines.len() - 1);
        append_chars(&mut msg, &last);
    } else {
        append_str(&mut msg, "no response");
    }
    Err(string_of(&msg))
}

/// A descriptor string that is present and not blank, kept as reported.
pub open spec fn nonblank(o: Option<String>) -> Option<Seq<char>> {
    match o {
        Some(s) => if trim(s@).len() > 0 {
            Some(s@)
        } else {
            None
        },
        None => None,
    }
}

fn nonblank_text(o: &Option<String>) -> (r: Option<String>)
    ensures
        opt_text(r) == nonblank(*o),
{
    match o {
        Some(s) => {
            let v = chars_of(s.as_str());
            let t = trim_ws(&v);
            if t.len() > 0 {
                Some(s.clone())
            } else {
                None
            }
        },
        None => None,
    }
}

/// The device-list candidate for a serial port. USB and unknown ports are
/// candidates; receive support stays unclaimed until a probe succeeds.
pub open spec fn at_candidate_spec(port: SerialPortSummary, d: Option<CellularDevice>) -> bool {
    let name = port.port_name@;
    match port.kind {
        SerialPortKind::Other => d is None,
        SerialPortKind::Usb { manufacturer, product, .. } => d matches Some(dev) && {
            &&& dev.label@ == device_label(
                nonblank(manufacturer),
                nonblank(product),
                "USB modem "@ + name,
            )
            &&& opt_text(dev.model) == nonblank(product)
            &&& at_candidate_common(name, dev)
        },
        SerialPortKind::Unknown => d matches Some(dev) && {
            &&& dev.label@ == "Serial modem candidate "@ + name
            &&& dev.model is None
            &&& at_candidate_common(name, dev)
        },
    }
}

pub open spec fn at_candidate_common(name: Seq<char>, dev: CellularDevice) -> bool {
    &&& dev.id@ == "at:"@ + name
    &&& dev.kind@ == "at"@
    &&& dev.operator is None
    &&& dev.signal is None
    &&& dev.network_class is None
    &&& dev.status@ == "available"@
    &&& dev.capabilities == DeviceCapabilities {
        sms_receive: false,
        sms_send: false,
        native_esim: false,
        euicc_bridge: false,
    }
}

fn prefixed(prefix: &str, rest: &String) -> (r: String)
    ensures
        r@ == prefix@ + rest@,
{
    let mut v = chars_of(prefix);
    append_str(&mut v, rest.as_str());
    string_of(&v)
}

pub fn at_candidate_device(port: &SerialPortSummary) -> (r: Option<CellularDevice>)
    ensures
        at_candidate_spec(*port, r),
{
    let (label, model) = match &port.kind {
        SerialPortKind::Usb { manufacturer, product, .. } => {
            let product = nonblank_text(product);
            let manufacturer = nonblank_text(manufacturer);
            let fallback = prefixed("USB modem ", &port.port_name);
            let label = device_label_text(&manufacturer, &product, fallback.as_str());
            (label, product)
        },
        SerialPortKind::Unknown => (prefixed("Serial modem candidate ", &port.port_name), None),
        SerialPortKind::Other => return None,
    };
    Some(
        CellularDevice {
            id: prefixed("at:", &port.port_name),
            label,
            kind: crate::text::str_to_string("at"),
            model,
            operator: None,
            signal: None,
            network_class: None,
            status: crate::text::str_to_string("available"),
            capabilities: DeviceCapabilities {
                sms_receive: false,
                sms_send: false,
                native_esim: false,
                euicc_bridge: false,
            },
        },
    )
}

/// The device-list candidates among the serial ports the system reports, in
/// their order; ports that are neither USB nor of unknown transport are left out.
pub open spec fn candidates_of(ports: Seq<SerialPortSummary>, ds: Seq<CellularDevice>) -> bool
    decreases ports.len(),
{
    if ports.len() == 0 {
        ds.len() == 0
    } else {
        match ports.last().kind {
            SerialPortKind::Other => candidates_of(ports.drop_last(), ds),
            _ => ds.len() > 0 && at_candidate_spec(ports.last(), Some(ds.last())) && candidates_of(
                ports.drop_last(),
                ds.drop_last(),
            ),
        }
    }
}

/// Passive discovery: one candidate per USB or unknown serial port; no port is opened.
pub fn enumerate_devices(ports: &[SerialPortSummary]) -> (r: Vec<CellularDevice>)
    ensures
        candidates_of(ports@, r@),
{
    let mut out: Vec<CellularDevice> = Vec::new();
    let mut i: usize = 0;
    while i < ports.len()
        invariant
            0 <= i <= ports@.len(),
            candidates_of(ports@.take(i as int), out@),
        decreases ports@.len() - i,
    {
        let ghost before = out@;
        let c = at_candidate_device(&ports[i]);
        proof {
            assert(ports@.take(i + 1).drop_last() =~= ports@.take(i as int));
            assert(ports@.take(i + 1).last() == ports@[i as int]);
        }
        match c {
            Some(d) => {
                out.push(d);
                assert(out@.drop_last() =~= before);
            },
            None => {},
        }
        i = i + 1;
    }
    assert(ports@.take(ports@.len() as int) =~= ports@);
    out
}

// ---------------------------------------------------------------------------
// PDU-mode records.
// ---------------------------------------------------------------------------

/// The storage-index text of a PDU `+CMGL` header: its first comma-separated piece, trimmed.
pub open spec fn pdu_index_text(header: Seq<char>) -> Seq<char> {
    trim(before_char(header, ','))
}

/// `m` is the record built for PDU text `pdu` read from storage index `idx`:
/// keyed by port, index and the PDU itself.
pub open spec fn pdu_record(port: Seq<char>, idx: Seq<char>, pdu: Seq<char>, m: IncomingSms) -> bool {
    &&& m.source_key@ == "at:"@ + port + ":pdu:"@ + idx + ":"@ + pdu
    &&& m.received_at is None
}

/// `decode` may give, for the PDU text `pdu`, the sender, text and multipart
/// metadata that `m` carries.
pub open spec fn decodes_pdu<F: Fn(&str) -> Result<DecodedPdu, String>>(
    decode: F,
    pdu: Seq<char>,
    m: IncomingSms,
) -> bool {
    exists|s: &str, d: DecodedPdu|
        s@ == pdu && #[trigger] decode.ensures((s,), Ok::<DecodedPdu, String>(d)) && m.sender
            == d.sender && m.body == d.body && m.concatenation == d.concatenation
}

/// `decode` may refuse the PDU text `pdu`.
pub open spec fn pdu_refused<F: Fn(&str) -> Result<DecodedPdu, String>>(decode: F, pdu: Seq<char>) -> bool {
    exists|s: &str, e: String| s@ == pdu && #[trigger] decode.ensures((s,), Err::<DecodedPdu, String>(e))
}

/// The PDU-mode `+CMGL` records from line `i` on: a header and the line after
/// it, where that line is hex PDU text that the decoder accepts. `out` is the
/// list produced.
pub open spec fn pdu_cmgl_from<F: Fn(&str) -> Result<DecodedPdu, String>>(
    port: Seq<char>,
    ls: Seq<Seq<char>>,
    i: int,
    decode: F,
    out: Seq<IncomingSms>,
) -> bool
    decreases ls.len() + 1 - i, out.len(),
{
    if i < 0 || i + 1 >= ls.len() {
        out.len() == 0
    } else {
        match strip_prefix(trim(ls[i]), "+CMGL:"@) {
            None => pdu_cmgl_from(port, ls, i + 1, decode, out),
            Some(header) => {
                let pdu = trim(ls[i + 1]);
                if is_hex_pdu(pdu) {
                    ||| (out.len() > 0 && pdu_record(port, pdu_index_text(header), pdu, out[0])
                        && decodes_pdu(decode, pdu, out[0]) && pdu_cmgl_from(
                        port,
                        ls,
                        i + 2,
                        decode,
                        out.drop_first(),
                    ))
                    ||| (pdu_refused(decode, pdu) && pdu_cmgl_from(port, ls, i + 2, decode, out))
                } else {
                    pdu_cmgl_from(port, ls, i + 2, decode, out)
                }
            },
        }
    }
}

fn pdu_key(port_name: &str, idx: &Vec<char>, pdu: &Vec<char>) -> (r: String)
    ensures
        r@ == "at:"@ + port_name@ + ":pdu:"@ + idx@ + ":"@ + pdu@,
{
    let mut k = chars_of("at:");
    append_str(&mut k, port_name);
    append_str(&mut k, ":pdu:");
    append_chars(&mut k, idx);
    append_str(&mut k, ":");
    append_chars(&mut k, pdu);
    string_of(&k)
}

/// Reads the records of a PDU-mode `+CMGL` response with `decode`.
pub fn parse_pdu_cmgl<F: Fn(&str) -> Result<DecodedPdu, String>>(
    port_name: &str,
    lines: &[String],
    decode: &F,
) -> (r: Vec<IncomingSms>)
    requires
        forall|s: &str| #[trigger] decode.requires((s,)),
    ensures
        pdu_cmgl_from(port_name@, lines_view(lines@), 0, *decode, r@),
{
    let ghost ls = lines_view(lines@);
    let mut out: Vec<IncomingSms> = Vec::new();
    let mut index: usize = 0;
    while index < lines.len() && index + 1 < lines.len()
        invariant
            0 <= index <= lines@.len(),
            ls == lines_view(lines@),
            forall|s: &str| #[trigger] decode.requires((s,)),
            forall|rest: Seq<IncomingSms>|
                pdu_cmgl_from(port_name@, ls, index as int, *decode, rest) ==> pdu_cmgl_from(
                    port_name@,
                    ls,
                    0,
                    *decode,
                    out@ + rest,
                ),
        decreases lines@.len() - index,
    {
        let line = line_chars(lines, index);
        let t = trim_ws(&line);
        let ghost before = out@;
        match strip_prefix_str(&t, "+CMGL:") {
            None => {
                proof {
                    assert forall|rest: Seq<IncomingSms>|
                        pdu_cmgl_from(port_name@, ls, index + 1, *decode, rest) implies pdu_cmgl_from(
                        port_name@,
                        ls,
                        0,
                        *decode,
                        out@ + rest,
                    ) by {
                        assert(pdu_cmgl_from(port_name@, ls, index as int, *decode, rest));
                    }
                }
                index = index + 1;
            },
            Some(header) => {
                let first = before_char_chars(&header, ',');
                let idx = trim_ws(&first);
                let next = line_chars(lines, index + 1);
                let pdu = trim_ws(&next);
                if hex_pdu_chars(&pdu) {
                    let pdu_s = string_of(&pdu);
                    match decode(pdu_s.as_str()) {
                        Ok(d) => {
                            let m = IncomingSms {
                                source_key: pdu_key(port_name, &idx, &pdu),
                                sender: d.sender,
                                body: d.body,
                                received_at: None,
                                concatenation: d.concatenation,
                            };
                            proof {
                                assert(decodes_pdu(*decode, pdu@, m));
                            }
                            out.push(m);
                            proof {
                                assert forall|rest: Seq<IncomingSms>|
                                    pdu_cmgl_from(
                                        port_name@,
                                        ls,
                                        index + 2,
                                        *decode,
                                        rest,
                                    ) implies pdu_cmgl_from(
                                    port_name@,
                                    ls,
                                    0,
                                    *decode,
                                    out@ + rest,
                                ) by {
                                    let full = seq![m] + rest;
                                    assert(full.drop_first() =~= rest);
                                    assert(full[0] == m);
                                    assert(pdu_cmgl_from(port_name@, ls, index as int, *decode, full));
                                    assert(before + full =~= out@ + rest);
                                }
                            }
                        },
                        Err(e) => {
                            proof {
                                assert(pdu_refused(*decode, pdu@));
                                assert forall|rest: Seq<IncomingSms>|
                                    pdu_cmgl_from(
                                        port_name@,
                                        ls,
                                        index + 2,
                                        *decode,
                                        rest,
                                    ) implies pdu_cmgl_from(
                                    port_name@,
                                    ls,
                                    0,
                                    *decode,
                                    out@ + rest,
                                ) by {
                                    assert(pdu_cmgl_from(port_name@, ls, index as int, *decode, rest));
                                }
                            }
                        },
                    }
                } else {
                    proof {
                        assert forall|rest: Seq<IncomingSms>|
                            pdu_cmgl_from(port_name@, ls, index + 2, *decode, rest) implies pdu_cmgl_from(
                            port_name@,
                            ls,
                            0,
                            *decode,
                            out@ + rest,
                        ) by {
                            assert(pdu_cmgl_from(port_name@, ls, index as int, *decode, rest));
                        }
                    }
                }
                index = index + 2;
            },
        }
    }
    proof {
        assert(pdu_cmgl_from(port_name@, ls, index as int, *decode, Seq::<IncomingSms>::empty()));
        assert(out@ + Seq::<IncomingSms>::empty() =~= out@);
    }
    out
}

/// First line at or after `j` whose trimmed text is hex PDU text.
pub open spec fn hex_line_from(ls: Seq<Seq<char>>, j: int) -> Option<int>
    decreases ls.len() - j,
{
    if j < 0 || j >= ls.len() {
        None
    } else if is_hex_pdu(trim(ls[j])) {
        Some(j)
    } else {
        hex_line_from(ls, j + 1)
    }
}

/// A PDU-mode `+CMGR` response: the first hex PDU line after the header,
/// decoded, keyed by port, storage index and PDU.
pub open spec fn pdu_cmgr_spec<F: Fn(&str) -> Result<DecodedPdu, String>>(
    port: Seq<char>,
    storage_index: u32,
    ls: Seq<Seq<char>>,
    decode: F,
    r: Option<IncomingSms>,
) -> bool {
    match cmgr_header_from(ls, 0) {
        None => r is None,
        Some(h) => match hex_line_from(ls, h + 1) {
            None => r is None,
            Some(j) => {
                let pdu = trim(ls[j]);
                match r {
                    Some(m) => pdu_record(port, decimal(storage_index as nat), pdu, m) && decodes_pdu(
                        decode,
                        pdu,
                        m,
                    ),
                    None => pdu_refused(decode, pdu),
                }
            },
        },
    }
}

/// Reads a PDU-mode `+CMGR` response with `decode`.
pub fn parse_pdu_cmgr<F: Fn(&str) -> Result<DecodedPdu, String>>(
    port_name: &str,
    storage_index: u32,
    lines: &[String],
    decode: &F,
) -> (r: Option<IncomingSms>)
    requires
        forall|s: &str| #[trigger] decode.requires((s,)),
    ensures
        pdu_cmgr_spec(port_name@, storage_index, lines_view(lines@), *decode, r),
{
    let ghost ls = lines_view(lines@);
    let mut h: usize = 0;
    while h < lines.len()
        invariant_except_break
            0 <= h <= lines@.len(),
            ls == lines_view(lines@),
            cmgr_header_from(ls, 0) == cmgr_header_from(ls, h as int),
        ensures
            0 <= h <= lines@.len(),
            ls == lines_view(lines@),
            cmgr_header_from(ls, 0) == cmgr_header_from(ls, h as int),
            h < lines@.len() ==> has_prefix(trim(ls[h as int]), "+CMGR:"@),
        decreases lines@.len() - h,
    {
        let line = line_chars(lines, h);
        let t = trim_ws(&line);
        if starts_with_str(&t, "+CMGR:") {
            break;
        }
        h = h + 1;
    }
    if h >= lines.len() {
        return None;
    }
    let mut j: usize = h + 1;
    while j < lines.len()
        invariant_except_break
            h + 1 <= j <= lines@.len(),
            ls == lines_view(lines@),
            hex_line_from(ls, h + 1) == hex_line_from(ls, j as int),
        ensures
            h + 1 <= j <= lines@.len(),
            hex_line_from(ls, h + 1) == hex_line_from(ls, j as int),
            j < lines@.len() ==> is_hex_pdu(trim(ls[j as int])),
        decreases lines@.len() - j,
    {
        let line = line_chars(lines, j);
        let t = trim_ws(&line);
        if hex_pdu_chars(&t) {
            break;
        }
        j = j + 1;
    }
    if j >= lines.len() {
        return None;
    }
    let line = line_chars(lines, j);
    let pdu = trim_ws(&line);
    let pdu_s = string_of(&pdu);
    match decode(pdu_s.as_str()) {
        Ok(d) => {
            let mut idx: Vec<char> = Vec::new();
            push_decimal(&mut idx, storage_index as u64);
            let m = IncomingSms {
                source_key: pdu_key(port_name, &idx, &pdu),
                sender: d.sender,
                body: d.body,
                received_at: None,
                concatenation: d.concatenation,
            };
            proof {
                assert(decodes_pdu(*decode, pdu@, m));
            }
            Some(m)
        },
        Err(e) => {
            proof {
                assert(pdu_refused(*decode, pdu@));
            }
            None
        },
    }
}

// ---------------------------------------------------------------------------
// Talking to the port: what a reply means and what is sent next.
// ---------------------------------------------------------------------------

/// Carriage returns turned into line feeds.
pub open spec fn cr_to_lf(s: Seq<char>) -> Seq<char> {
    s.map_values(|c: char| if c == '\r' { '\n' } else { c })
}

/// The trimmed, non-blank lines other than the echoed command.
pub open spec fn without_echo(ls: Seq<Seq<char>>, command: Seq<char>) -> Seq<Seq<char>>
    decreases ls.len(),
{
    if ls.len() == 0 {
        Seq::empty()
    } else {
        let rest = without_echo(ls.drop_last(), command);
        let t = trim(ls.last());
        if t.len() > 0 && t != command {
            rest.push(t)
        } else {
            rest
        }
    }
}

/// The lines of a command's reply as the session reads them.
pub open spec fn reply_lines(text: Seq<char>, command: Seq<char>) -> Seq<Seq<char>> {
    without_echo(str_lines(cr_to_lf(text)), command)
}

/// Splits the text a command got back into its lines: carriage returns count
/// as line breaks, lines are trimmed, and blank lines and the echo go.
pub fn response_lines(text: &str, command: &str) -> (r: Vec<String>)
    ensures
        strings_view(r@) == reply_lines(text@, command@),
{
    let v = chars_of(text);
    let mut lf: Vec<char> = Vec::new();
    let mut i: usize = 0;
    while i < v.len()
        invariant
            0 <= i <= v.len(),
            lf@ == cr_to_lf(v@.take(i as int)),
        decreases v.len() - i,
    {
        if v[i] == '\r' {
            lf.push('\n');
        } else {
            lf.push(v[i]);
        }
        assert(lf@ =~= cr_to_lf(v@.take(i + 1)));
        i = i + 1;
    }
    assert(v@.take(v.len() as int) =~= v@);
    let ls = crate::text::lines_of(&lf);
    let cmd = chars_of(command);
    let mut out: Vec<String> = Vec::new();
    let mut j: usize = 0;
    while j < ls.len()
        invariant
            0 <= j <= ls.len(),
            cmd@ == command@,
            strings_view(out@) == without_echo(views_of(ls@).take(j as int), command@),
        decreases ls.len() - j,
    {
        let t = trim_ws(&ls[j]);
        let ghost pre = views_of(ls@).take(j as int);
        let ghost nxt = views_of(ls@).take(j + 1);
        assert(nxt.drop_last() =~= pre);
        assert(nxt.last() == ls@[j as int]@);
        let ghost before = strings_view(out@);
        if t.len() > 0 && !crate::text::chars_eq(&t, &cmd) {
            out.push(string_of(&t));
            assert(strings_view(out@) =~= before.push(t@));
        }
        j = j + 1;
    }
    assert(views_of(ls@).take(ls.len() as int) =~= views_of(ls@));
    out
}

pub open spec fn has_error_line(ls: Seq<Seq<char>>) -> bool {
    exists|i: int| 0 <= i < ls.len() && terminal_error(#[trigger] ls[i])
}

/// Index of the last line before `j` that is not blank.
pub open spec fn last_nonblank_before(ls: Seq<Seq<char>>, j: int) -> Option<int>
    decreases j,
{
    if j <= 0 || j > ls.len() {
        None
    } else if trim(ls[j - 1]).len() > 0 {
        Some(j - 1)
    } else {
        last_nonblank_before(ls, j - 1)
    }
}

/// A reply is finished once a line is a final error, or its last non-blank line is `OK`.
pub open spec fn reply_finished(text: Seq<char>) -> bool {
    let ls = str_lines(text);
    has_error_line(ls) || match last_nonblank_before(ls, ls.len() as int) {
        Some(k) => terminal_ok(ls[k]),
        None => false,
    }
}

pub fn response_is_complete(text: &str) -> (b: bool)
    ensures
        b == reply_finished(text@),
{
    let v = chars_of(text);
    let ls = crate::text::lines_of(&v);
    let ghost lv = views_of(ls@);
    let mut i: usize = 0;
    while i < ls.len()
        invariant
            0 <= i <= ls.len(),
            lv == views_of(ls@),
            lv == str_lines(text@),
            forall|k: int| 0 <= k < i ==> !terminal_error(#[trigger] lv[k]),
        decreases ls.len() - i,
    {
        assert(lv[i as int] == ls@[i as int]@);
        if terminal_error_chars(&ls[i]) {
            assert(terminal_error(lv[i as int]));
            return true;
        }
        i = i + 1;
    }
    let mut j: usize = ls.len();
    while j > 0
        invariant
            0 <= j <= ls.len(),
            lv == views_of(ls@),
            lv == str_lines(text@),
            !has_error_line(lv),
            last_nonblank_before(lv, ls.len() as int) == last_nonblank_before(lv, j as int),
        decreases j,
    {
        assert(lv[j - 1] == ls@[j - 1]@);
        let t = trim_ws(&ls[j - 1]);
        if t.len() > 0 {
            return terminal_ok_chars(&ls[j - 1]);
        }
        j = j - 1;
    }
    false
}

/// First byte at or after `i` that ends a line (CR or LF).
pub open spec fn line_break_from(b: Seq<u8>, i: int) -> Option<int>
    decreases b.len() - i,
{
    if i < 0 || i >= b.len() {
        None
    } else if b[i] == 13 || b[i] == 10 {
        Some(i)
    } else {
        line_break_from(b, i + 1)
    }
}

pub proof fn lemma_line_break_from(b: Seq<u8>, i: int)
    requires
        0 <= i,
    ensures
        line_break_from(b, i) matches Some(k) ==> i <= k < b.len(),
    decreases b.len() - i,
{
    if i < b.len() && !(b[i] == 13 || b[i] == 10) {
        lemma_line_break_from(b, i + 1);
    }
}

/// The complete lines in a receive buffer, each decoded, stripped of CR, LF,
/// space and tab at both ends and kept when not empty; and the bytes left
/// after the last line break.
pub open spec fn drained(b: Seq<u8>) -> (Seq<Seq<char>>, Seq<u8>)
    decreases b.len(),
{
    match line_break_from(b, 0) {
        None => (Seq::empty(), b),
        Some(k) => {
            proof {
                lemma_line_break_from(b, 0);
            }
            let line = trim_cls(crate::text::utf8_lossy_text(b.take(k + 1)), CharClass::LineNoise);
            let (rest, left) = drained(b.skip(k + 1));
            (
                if line.len() > 0 {
                    seq![line] + rest
                } else {
                    rest
                },
                left,
            )
        },
    }
}

/// Takes every complete line off the front of the receive buffer.
pub fn drain_complete_lines(bytes: &mut Vec<u8>) -> (lines: Vec<String>)
    ensures
        strings_view(lines@) == drained(old(bytes)@).0,
        final(bytes)@ == drained(old(bytes)@).1,
{
    let mut out: Vec<String> = Vec::new();
    let ghost orig = bytes@;
    assert(strings_view(out@) + drained(bytes@).0 =~= drained(orig).0);
    loop
        invariant
            strings_view(out@) + drained(bytes@).0 == drained(orig).0,
            drained(bytes@).1 == drained(orig).1,
        ensures
            strings_view(out@) == drained(orig).0,
            bytes@ == drained(orig).1,
        decreases bytes@.len(),
    {
        let mut k: usize = 0;
        while k < bytes.len() && bytes[k] != 13 && bytes[k] != 10
            invariant
                0 <= k <= bytes.len(),
                line_break_from(bytes@, 0) == line_break_from(bytes@, k as int),
            decreases bytes.len() - k,
        {
            k = k + 1;
        }
        if k >= bytes.len() {
            assert(line_break_from(bytes@, k as int) is None);
            assert(strings_view(out@) + Seq::<Seq<char>>::empty() =~= strings_view(out@));
            break;
        }
        let ghost cur = bytes@;
        let raw = sub_bytes(bytes, 0, k + 1);
        let text = crate::text::utf8_lossy(raw.as_slice());
        let tv = chars_of(text.as_str());
        let line = trim_chars(&tv, CharClass::LineNoise);
        let rest = sub_bytes(bytes, k + 1, bytes.len());
        assert(raw@ =~= cur.take(k + 1));
        assert(rest@ =~= cur.skip(k + 1));
        let ghost before = strings_view(out@);
        if line.len() > 0 {
            out.push(string_of(&line));
            assert(strings_view(out@) =~= before.push(line@));
            assert(before.push(line@) + drained(rest@).0 =~= before + (seq![line@] + drained(
                rest@,
            ).0));
        }
        *bytes = rest;
    }
    out
}

/// Text mode is available when `AT+CMGF=1` was answered `OK`.
pub open spec fn has_ok_line(ls: Seq<Seq<char>>) -> bool {
    exists|i: int| 0 <= i < ls.len() && terminal_ok(#[trigger] ls[i])
}

pub fn text_mode_ok(lines: &[String]) -> (b: bool)
    ensures
        b == has_ok_line(lines_view(lines@)),
{
    let mut i: usize = 0;
    while i < lines.len()
        invariant
            0 <= i <= lines@.len(),
            forall|k: int| 0 <= k < i ==> !terminal_ok(#[trigger] lines_view(lines@)[k]),
        decreases lines@.len() - i,
    {
        let l = line_chars(lines, i);
        if terminal_ok_chars(&l) {
            return true;
        }
        i = i + 1;
    }
    false
}

/// First line at or after `i` that names an operator.
pub open spec fn operator_line_from(ls: Seq<Seq<char>>, i: int) -> Option<Seq<char>>
    decreases ls.len() - i,
{
    if i < 0 || i >= ls.len() {
        None
    } else {
        match cops_operator_of(ls[i]) {
            Some(op) => Some(op),
            None => operator_line_from(ls, i + 1),
        }
    }
}

/// The operator named by the first `+COPS:` line of a reply that names one.
pub fn operator_from_lines(lines: &[String]) -> (r: Option<String>)
    ensures
        opt_text(r) == operator_line_from(lines_view(lines@), 0),
{
    let mut i: usize = 0;
    while i < lines.len()
        invariant
            0 <= i <= lines@.len(),
            operator_line_from(lines_view(lines@), 0) == operator_line_from(
                lines_view(lines@),
                i as int,
            ),
        decreases lines@.len() - i,
    {
        match parse_cops_operator(lines[i].as_str()) {
            Some(op) => return Some(op),
            None => {},
        }
        i = i + 1;
    }
    None
}

/// First line at or after `i` that gives a signal reading.
pub open spec fn signal_line_from(ls: Seq<Seq<char>>, i: int) -> Option<u8>
    decreases ls.len() - i,
{
    if i < 0 || i >= ls.len() {
        None
    } else {
        match csq_percent_of(ls[i]) {
            Some(p) => Some(p),
            None => signal_line_from(ls, i + 1),
        }
    }
}

/// The signal percentage of the first `+CSQ:` line of a reply that gives one.
pub fn signal_from_lines(lines: &[String]) -> (r: Option<u8>)
    ensures
        r == signal_line_from(lines_view(lines@), 0),
{
    let mut i: usize = 0;
    while i < lines.len()
        invariant
            0 <= i <= lines@.len(),
            signal_line_from(lines_view(lines@), 0) == signal_line_from(
                lines_view(lines@),
                i as int,
            ),
        decreases lines@.len() - i,
    {
        match parse_csq_percent(lines[i].as_str()) {
            Some(p) => return Some(p),
            None => {},
        }
        i = i + 1;
    }
    None
}

/// The commands that read the message a `+CMTI` indication names: the
/// storage is selected first when its name is safe to send.
pub fn index_read_commands(notification: &CmtiNotification) -> (r: (Option<String>, String))
    ensures
        match r.0 {
            Some(c) => is_storage_name(notification.storage@) && c@ == "AT+CPMS=\""@
                + notification.storage@ + "\""@,
            None => !is_storage_name(notification.storage@),
        },
        r.1@ == "AT+CMGR="@ + decimal(notification.index as nat),
{
    let select = if valid_storage_name(notification.storage.as_str()) {
        let mut c = chars_of("AT+CPMS=\"");
        append_str(&mut c, notification.storage.as_str());
        append_str(&mut c, "\"");
        Some(string_of(&c))
    } else {
        None
    };
    let mut read = chars_of("AT+CMGR=");
    push_decimal(&mut read, notification.index as u64);
    (select, string_of(&read))
}

/// The note kept when one baud rate fails: `<baud> baud: <error>`.
pub fn baud_failure(baud: u32, error: &str) -> (r: String)
    ensures
        r@ == decimal(baud as nat) + " baud: "@ + error@,
{
    let mut v: Vec<char> = Vec::new();
    push_decimal(&mut v, baud as u64);
    append_str(&mut v, " baud: ");
    append_str(&mut v, error);
    string_of(&v)
}

/// The error when no baud rate gives a session, for a poll or for the background listener.
pub fn session_failure(port_name: &str, last_error: &str, background: bool) -> (r: String)
    ensures
        r@ == (if background {
            "could not establish background AT session on "@
        } else {
            "could not establish receive-only AT session on "@
        }) + port_name@ + ": "@ + last_error@,
{
    let mut v = if background {
        chars_of("could not establish background AT session on ")
    } else {
        chars_of("could not establish receive-only AT session on ")
    };
    append_str(&mut v, port_name);
    append_str(&mut v, ": ");
    append_str(&mut v, last_error);
    string_of(&v)
}

/// The listener thread's name: the port name with path and drive separators replaced.
pub open spec fn thread_name_of(port_name: Seq<char>) -> Seq<char> {
    "cellularhub-at-"@ + port_name.map_values(
        |c: char| if c == '\\' || c == '/' || c == ':' { '_' } else { c },
    )
}

pub fn listener_thread_name(port_name: &str) -> (r: String)
    ensures
        r@ == thread_name_of(port_name@),
{
    let v = chars_of(port_name);
    let mut out = chars_of("cellularhub-at-");
    let ghost prefix = out@;
    let mut i: usize = 0;
    while i < v.len()
        invariant
            0 <= i <= v.len(),
            out@ == prefix + v@.take(i as int).map_values(
                |c: char| if c == '\\' || c == '/' || c == ':' { '_' } else { c },
            ),
        decreases v.len() - i,
    {
        let c = v[i];
        if c == '\\' || c == '/' || c == ':' {
            out.push('_');
        } else {
            out.push(c);
        }
        assert(v@.take(i + 1).map_values(
            |c: char| if c == '\\' || c == '/' || c == ':' { '_' } else { c },
        ) =~= v@.take(i as int).map_values(
            |c: char| if c == '\\' || c == '/' || c == ':' { '_' } else { c },
        ).push(if c == '\\' || c == '/' || c == ':' { '_' } else { c }));
        i = i + 1;
    }
    assert(v@.take(v.len() as int) =~= v@);
    string_of(&out)
}

/// Reception never turns into sending: the commands built to read a stored
/// message (`AT+CMGR=<index>`) and to select its storage (`AT+CPMS="<name>"`)
/// are never the send command `AT+CMGS`.
pub proof fn lemma_read_commands_never_send(index: u32, storage: Seq<char>)
    ensures
        !has_prefix("AT+CMGR="@ + decimal(index as nat), "AT+CMGS"@),
        !has_prefix("AT+CPMS=\""@ + storage + "\""@, "AT+CMGS"@),
{
    reveal_strlit("AT+CMGR=");
    reveal_strlit("AT+CMGS");
    reveal_strlit("AT+CPMS=\"");
    let read = "AT+CMGR="@ + decimal(index as nat);
    let select = "AT+CPMS=\""@ + storage + "\""@;
    assert(read[6] == 'R');
    assert(select[4] == 'P');
    if has_prefix(read, "AT+CMGS"@) {
        assert(read.subrange(0, 7)[6] == read[6]);
    }
    if has_prefix(select, "AT+CMGS"@) {
        assert(select.subrange(0, 7)[4] == select[4]);
    }
}

/// A USB port that reports a serial number that is not blank.
pub open spec fn usb_with_serial(p: SerialPortSummary) -> bool {
    match p.kind {
        SerialPortKind::Usb { serial_number: Some(serial), .. } => trim(serial@).len() > 0,
        _ => false,
    }
}

/// Only a USB port with a serial number gives an AT device a stable identity.
pub proof fn lemma_at_identity_needs_serial(device_id: Seq<char>, ports: Seq<SerialPortSummary>)
    requires
        has_prefix(device_id, "at:"@),
        crate::providers::identity::hardware_key_of(device_id, ports) is Some,
    ensures
        exists|k: int| 0 <= k < ports.len() && usb_with_serial(#[trigger] ports[k]),
{
    reveal_strlit("at:");
    reveal_strlit("mbn:");
    assert(device_id.subrange(0, 3)[1] == device_id[1]);
    assert(device_id[1] == 't');
    if has_prefix(device_id, "mbn:"@) {
        assert(device_id.subrange(0, 4)[1] == device_id[1]);
    }
    let name = strip_prefix(device_id, "at:"@).unwrap();
    crate::providers::identity::lemma_port_named_from(ports, name, 0);
}

} // verus!
