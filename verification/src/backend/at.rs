//! The AT compatibility backend's response handling: unsolicited `+CMTI`
//! lines, `CMGR`/`CMGL` records in text mode, operator and signal queries,
//! and the UCS-2 hex text that some modems answer with.

use vstd::prelude::*;

use crate::backend::pdu::DecodedSms;
use crate::sms::pdu::Concatenation;
use crate::ids::uuid_v4_text;
use crate::model::{BackendKind, CapabilitySet, CellularSnapshot, DeviceInfo, SmsMessage};
use crate::providers::ports::{SerialPortKind, SerialPortSummary};
use crate::sms::inbox::{category_of, classify_message, extract_code, extracted_code, opt_view};
use crate::time::now_rfc3339;
use crate::providers::at::{split_field_chars, split_fields};
use crate::text::{
    after_last_char, after_last_char_chars, append_chars, append_str, ascii_upper_chars,
    before_char, before_char_chars, char_from_u32, chars_eq_str, chars_of, contains, contains_str,
    find, find_seq, has_prefix, is_ascii_hexdigit, join, join_chars, lemma_find_from,
    lines_of, parse_i32, parse_i32_chars, parse_u32, parse_u32_chars, split_once,
    split_once_char, starts_with_str, str_lines, str_to_string, string_of, strings_view,
    lower_seq, strip_prefix, sub_chars, trim, trim_chars, trim_cls, trim_ws, upper_seq, hex4_lower, views_of, CharClass,
};

verus! {

/// A decoded record and the storage slot it was read from.
#[derive(Debug, Clone)]
pub struct ParsedIncoming {
    pub decoded: DecodedSms,
    pub slot: Option<u32>,
}

/// The text of a parsed record as the contracts see it.
pub struct ParsedView {
    pub sender: Seq<char>,
    pub body: Seq<char>,
    pub concat: Option<Concatenation>,
    pub slot: Option<u32>,
}

impl View for ParsedIncoming {
    type V = ParsedView;

    open spec fn view(&self) -> ParsedView {
        ParsedView {
            sender: self.decoded.sender@,
            body: self.decoded.body@,
            concat: self.decoded.concat,
            slot: self.slot,
        }
    }
}

pub open spec fn parsed_views(v: Seq<ParsedIncoming>) -> Seq<ParsedView> {
    v.map_values(|p: ParsedIncoming| p@)
}

/// The storage index of a `+CMTI:` line: the text after its last comma.
pub open spec fn cmti_slot_of(line: Seq<char>) -> Option<u32> {
    if has_prefix(line, "+CMTI:"@) {
        parse_u32(trim(after_last_char(line, ',')))
    } else {
        None
    }
}

pub fn parse_cmti(line: &str) -> (r: Option<u32>)
    ensures
        r == cmti_slot_of(line@),
{
    let l = chars_of(line);
    if !starts_with_str(&l, "+CMTI:") {
        return None;
    }
    let last = after_last_char_chars(&l, ',');
    let t = trim_ws(&last);
    parse_u32_chars(&t)
}

/// Comma-separated fields outside quotes, trimmed; the quote characters are dropped.
pub fn csv_fields(input: &str) -> (r: Vec<String>)
    ensures
        strings_view(r@) == split_fields(input@, false),
{
    let v = chars_of(input);
    let f = split_field_chars(&v, false);
    crate::providers::at::to_strings(&f)
}

// ---------------------------------------------------------------------------
// UCS-2 hex text.
// ---------------------------------------------------------------------------

pub open spec fn hex_value(c: char) -> nat {
    if '0' <= c && c <= '9' {
        ((c as u32) - 48) as nat
    } else if 'a' <= c && c <= 'f' {
        ((c as u32) - 87) as nat
    } else {
        ((c as u32) - 55) as nat
    }
}

pub open spec fn all_hex(s: Seq<char>) -> bool {
    forall|i: int| 0 <= i < s.len() ==> is_ascii_hexdigit(#[trigger] s[i])
}

/// The 16-bit unit spelled by the four hex digits at `i`.
pub open spec fn hex_unit_at(s: Seq<char>, i: int) -> nat {
    hex_value(s[i]) * 4096 + hex_value(s[i + 1]) * 256 + hex_value(s[i + 2]) * 16 + hex_value(
        s[i + 3],
    )
}

/// Groups of four hex digits read as UTF-16 code units.
pub open spec fn hex_units(s: Seq<char>) -> Seq<u16> {
    Seq::new(s.len() / 4, |k: int| hex_unit_at(s, 4 * k) as u16)
}

/// UTF-16 decoding (`String::from_utf16`): `None` at an unpaired surrogate.
pub open spec fn utf16_decode(u: Seq<u16>) -> Option<Seq<char>>
    decreases u.len(),
{
    if u.len() == 0 {
        Some(Seq::empty())
    } else if u[0] < 0xD800 || u[0] > 0xDFFF {
        match utf16_decode(u.drop_first()) {
            Some(rest) => Some(seq![(u[0] as u32) as char] + rest),
            None => None,
        }
    } else if u[0] <= 0xDBFF && u.len() >= 2 && 0xDC00 <= u[1] && u[1] <= 0xDFFF {
        let cp = 0x10000 + (u[0] - 0xD800) * 0x400 + (u[1] - 0xDC00);
        match utf16_decode(u.subrange(2, u.len() as int)) {
            Some(rest) => Some(seq![(cp as u32) as char] + rest),
            None => None,
        }
    } else {
        None
    }
}

/// A field that may be UCS-2 hex: trimmed and unquoted, then decoded when it
/// is a non-empty multiple of four hex digits that decodes as UTF-16.
pub open spec fn possible_ucs2(input: Seq<char>) -> Seq<char> {
    let clean = trim_cls(trim(input), CharClass::Quote);
    if clean.len() >= 4 && clean.len() % 4 == 0 && all_hex(clean) {
        match utf16_decode(hex_units(clean)) {
            Some(d) => d,
            None => clean,
        }
    } else {
        clean
    }
}

fn hex_digit_value(c: char) -> (v: u32)
    requires
        is_ascii_hexdigit(c),
    ensures
        v == hex_value(c),
        v < 16,
{
    let x = c as u32;
    if '0' <= c && c <= '9' {
        x - 48
    } else if 'a' <= c && c <= 'f' {
        x - 87
    } else {
        x - 55
    }
}

fn all_hex_chars(v: &Vec<char>) -> (b: bool)
    ensures
        b == all_hex(v@),
{
    let mut i: usize = 0;
    while i < v.len()
        invariant
            0 <= i <= v.len(),
            forall|k: int| 0 <= k < i ==> is_ascii_hexdigit(#[trigger] v@[k]),
        decreases v.len() - i,
    {
        if !crate::text::char_is_ascii_hexdigit(v[i]) {
            assert(!is_ascii_hexdigit(v@[i as int]));
            return false;
        }
        i = i + 1;
    }
    true
}

fn hex_units_of(v: &Vec<char>) -> (u: Vec<u16>)
    requires
        all_hex(v@),
    ensures
        u@ == hex_units(v@),
{
    let n = v.len() / 4;
    let mut u: Vec<u16> = Vec::new();
    let mut k: usize = 0;
    while k < n
        invariant
            0 <= k <= n,
            n == v@.len() / 4,
            all_hex(v@),
            u@ == hex_units(v@).take(k as int),
        decreases n - k,
    {
        assert(4 * k + 3 < v.len()) by (nonlinear_arith)
            requires
                k < n,
                n == v@.len() / 4,
        ;
        let i = 4 * k;
        let a = hex_digit_value(v[i]);
        let b = hex_digit_value(v[i + 1]);
        let c = hex_digit_value(v[i + 2]);
        let d = hex_digit_value(v[i + 3]);
        let unit = (a * 4096 + b * 256 + c * 16 + d) as u16;
        u.push(unit);
        assert(u@ =~= hex_units(v@).take(k + 1));
        k = k + 1;
    }
    assert(hex_units(v@).take(n as int) =~= hex_units(v@));
    u
}

pub open spec fn prefixed_decode(out: Seq<char>, r: Option<Seq<char>>) -> Option<Seq<char>> {
    match r {
        Some(rest) => Some(out + rest),
        None => None,
    }
}

/// `String::from_utf16` over the units.
pub fn decode_utf16(u: &Vec<u16>) -> (r: Option<String>)
    ensures
        r matches Some(s) ==> utf16_decode(u@) == Some(s@),
        r is None ==> utf16_decode(u@) is None,
{
    let mut out: Vec<char> = Vec::new();
    let mut i: usize = 0;
    assert(u@.subrange(0, u@.len() as int) =~= u@);
    while i < u.len()
        invariant
            0 <= i <= u.len(),
            utf16_decode(u@) == prefixed_decode(out@, utf16_decode(u@.subrange(i as int, u@.len() as int))),
        decreases u.len() - i,
    {
        let ghost rest = u@.subrange(i as int, u@.len() as int);
        let w = u[i];
        assert(rest[0] == w);
        if w < 0xD800 || w > 0xDFFF {
            let c = match char_from_u32(w as u32) {
                Some(c) => c,
                None => return None,
            };
            assert(rest.drop_first() =~= u@.subrange(i + 1, u@.len() as int));
            assert(c == (w as u32) as char);
            proof {
                match utf16_decode(rest.drop_first()) {
                    Some(tail) => {
                        assert(out@ + (seq![c] + tail) =~= out@.push(c) + tail);
                    },
                    None => {},
                }
            }
            out.push(c);
            i = i + 1;
        } else if w <= 0xDBFF && i + 1 < u.len() && 0xDC00 <= u[i + 1] && u[i + 1] <= 0xDFFF {
            let lo = u[i + 1];
            assert(rest[1] == lo);
            let cp: u32 = 0x10000 + ((w as u32) - 0xD800) * 0x400 + ((lo as u32) - 0xDC00);
            let c = match char_from_u32(cp) {
                Some(c) => c,
                None => return None,
            };
            assert(rest.subrange(2, rest.len() as int) =~= u@.subrange(i + 2, u@.len() as int));
            assert(c == cp as char);
            proof {
                match utf16_decode(rest.subrange(2, rest.len() as int)) {
                    Some(tail) => {
                        assert(out@ + (seq![c] + tail) =~= out@.push(c) + tail);
                    },
                    None => {},
                }
            }
            out.push(c);
            i = i + 2;
        } else {
            return None;
        }
    }
    assert(u@.subrange(u@.len() as int, u@.len() as int) =~= Seq::<u16>::empty());
    assert(out@ + Seq::<char>::empty() =~= out@);
    Some(string_of(&out))
}

pub fn decode_possible_ucs2(input: &str) -> (r: String)
    ensures
        r@ == possible_ucs2(input@),
{
    let v = chars_of(input);
    let t = trim_ws(&v);
    let clean = trim_chars(&t, CharClass::Quote);
    if clean.len() >= 4 && clean.len() % 4 == 0 && all_hex_chars(&clean) {
        let units = hex_units_of(&clean);
        match decode_utf16(&units) {
            Some(s) => return s,
            None => {},
        }
    }
    string_of(&clean)
}

/// First line at or after `i` whose trimmed text starts with `tag`.
pub open spec fn first_tagged_from(ls: Seq<Seq<char>>, tag: Seq<char>, i: int) -> Option<int>
    decreases ls.len() - i,
{
    if i < 0 || i >= ls.len() {
        None
    } else if has_prefix(trim(ls[i]), tag) {
        Some(i)
    } else {
        first_tagged_from(ls, tag, i + 1)
    }
}

fn first_tagged(ls: &Vec<Vec<char>>, tag: &str) -> (r: Option<usize>)
    ensures
        r matches Some(k) ==> first_tagged_from(views_of(ls@), tag@, 0) == Some(k as int) && k
            < ls.len(),
        r is None ==> first_tagged_from(views_of(ls@), tag@, 0) is None,
{
    let mut i: usize = 0;
    while i < ls.len()
        invariant
            0 <= i <= ls.len(),
            first_tagged_from(views_of(ls@), tag@, 0) == first_tagged_from(
                views_of(ls@),
                tag@,
                i as int,
            ),
        decreases ls.len() - i,
    {
        let t = trim_ws(&ls[i]);
        assert(views_of(ls@)[i as int] == ls@[i as int]@);
        if starts_with_str(&t, tag) {
            return Some(i);
        }
        i = i + 1;
    }
    None
}

/// The operator of a `+COPS?` response: the third field of the `+COPS:` line,
/// decoded where it is UCS-2 hex, when not empty.
pub open spec fn operator_of(response: Seq<char>) -> Option<Seq<char>> {
    let ls = str_lines(response);
    match first_tagged_from(ls, "+COPS:"@, 0) {
        None => None,
        Some(k) => match split_once(ls[k], ':') {
            None => None,
            Some((_, after)) => {
                let fields = split_fields(trim(after), false);
                if fields.len() > 2 && possible_ucs2(fields[2]).len() > 0 {
                    Some(possible_ucs2(fields[2]))
                } else {
                    None
                }
            },
        },
    }
}

pub fn parse_operator(response: &str) -> (r: Option<String>)
    ensures
        r matches Some(s) ==> operator_of(response@) == Some(s@),
        r is None ==> operator_of(response@) is None,
{
    let text = chars_of(response);
    let ls = lines_of(&text);
    let k = match first_tagged(&ls, "+COPS:") {
        Some(k) => k,
        None => return None,
    };
    assert(views_of(ls@)[k as int] == ls@[k as int]@);
    let (_, after) = match split_once_char(&ls[k], ':') {
        Some(p) => p,
        None => return None,
    };
    let t = trim_ws(&after);
    let fields = split_field_chars(&t, false);
    if fields.len() > 2 {
        assert(views_of(fields@)[2] == fields@[2]@);
        let f = string_of(&fields[2]);
        let op = decode_possible_ucs2(f.as_str());
        let opv = chars_of(op.as_str());
        if opv.len() > 0 {
            return Some(op);
        }
    }
    None
}

/// `rssi` clamped to 0..=31.
pub open spec fn clamp_rssi(rssi: i32) -> int {
    if rssi < 0 {
        0
    } else if rssi > 31 {
        31
    } else {
        rssi as int
    }
}

/// Signal from a `+CSQ` response: 99 is unknown (0 %, no dBm); otherwise the
/// clamped RSSI `r` gives `round(r * 100 / 31)` percent and `-113 + 2r` dBm.
pub open spec fn csq_of(response: Seq<char>) -> Option<(u8, Option<i32>)> {
    let ls = str_lines(response);
    match first_tagged_from(ls, "+CSQ:"@, 0) {
        None => None,
        Some(k) => match split_once(ls[k], ':') {
            None => None,
            Some((_, after)) => match parse_i32(trim(before_char(after, ','))) {
                None => None,
                Some(rssi) => if rssi == 99 {
                    Some((0u8, None))
                } else {
                    let r = clamp_rssi(rssi);
                    Some((((200 * r + 31) / 62) as u8, Some((-113 + 2 * r) as i32)))
                },
            },
        },
    }
}

pub fn parse_csq(response: &str) -> (r: Option<(u8, Option<i32>)>)
    ensures
        r == csq_of(response@),
{
    let text = chars_of(response);
    let ls = lines_of(&text);
    let k = match first_tagged(&ls, "+CSQ:") {
        Some(k) => k,
        None => return None,
    };
    assert(views_of(ls@)[k as int] == ls@[k as int]@);
    let (_, after) = match split_once_char(&ls[k], ':') {
        Some(p) => p,
        None => return None,
    };
    let first = before_char_chars(&after, ',');
    let t = trim_ws(&first);
    let rssi = match parse_i32_chars(&t) {
        Some(v) => v,
        None => return None,
    };
    if rssi == 99 {
        return Some((0, None));
    }
    let r: i32 = if rssi < 0 {
        0
    } else if rssi > 31 {
        31
    } else {
        rssi
    };
    let dbm: i32 = -113 + 2 * r;
    let percent: u8 = ((200 * r + 31) / 62) as u8;
    Some((percent, Some(dbm)))
}

/// The trimmed, non-empty response lines other than `OK` (and, where
/// `drop_error`, other than `ERROR`).
pub open spec fn kept_lines(ls: Seq<Seq<char>>, drop_error: bool) -> Seq<Seq<char>>
    decreases ls.len(),
{
    if ls.len() == 0 {
        Seq::empty()
    } else {
        let rest = kept_lines(ls.drop_last(), drop_error);
        let t = trim(ls.last());
        if t.len() > 0 && t != "OK"@ && (!drop_error || t != "ERROR"@) {
            rest.push(t)
        } else {
            rest
        }
    }
}

fn kept_lines_of(ls: &Vec<Vec<char>>, drop_error: bool) -> (r: Vec<Vec<char>>)
    ensures
        views_of(r@) == kept_lines(views_of(ls@), drop_error),
{
    let mut r: Vec<Vec<char>> = Vec::new();
    let mut i: usize = 0;
    while i < ls.len()
        invariant
            0 <= i <= ls.len(),
            views_of(r@) == kept_lines(views_of(ls@).take(i as int), drop_error),
        decreases ls.len() - i,
    {
        let ghost pre = views_of(ls@).take(i as int);
        let ghost nxt = views_of(ls@).take(i + 1);
        assert(nxt.drop_last() =~= pre);
        assert(nxt.last() == ls@[i as int]@);
        let t = trim_ws(&ls[i]);
        if t.len() > 0 && !chars_eq_str(&t, "OK") && (!drop_error || !chars_eq_str(&t, "ERROR")) {
            let ghost before = views_of(r@);
            r.push(t);
            assert(views_of(r@) =~= before.push(t@));
        }
        i = i + 1;
    }
    assert(views_of(ls@).take(ls.len() as int) =~= views_of(ls@));
    r
}

/// The lines among `ls[a..]` that do not start with `+CMGR:`.
pub open spec fn non_header_lines(ls: Seq<Seq<char>>, a: int, b: int) -> Seq<Seq<char>>
    decreases b - a,
{
    if b <= a {
        Seq::empty()
    } else {
        let rest = non_header_lines(ls, a, b - 1);
        if has_prefix(ls[b - 1], "+CMGR:"@) {
            rest
        } else {
            rest.push(ls[b - 1])
        }
    }
}

/// First line at or after `i` that starts with `tag` (lines already trimmed).
pub open spec fn first_prefixed_from(ls: Seq<Seq<char>>, tag: Seq<char>, i: int) -> Option<int>
    decreases ls.len() - i,
{
    if i < 0 || i >= ls.len() {
        None
    } else if has_prefix(ls[i], tag) {
        Some(i)
    } else {
        first_prefixed_from(ls, tag, i + 1)
    }
}

pub proof fn lemma_first_prefixed_from(ls: Seq<Seq<char>>, tag: Seq<char>, i: int)
    requires
        0 <= i,
    ensures
        first_prefixed_from(ls, tag, i) matches Some(k) ==> i <= k < ls.len() && has_prefix(
            ls[k],
            tag,
        ),
    decreases ls.len() - i,
{
    if 0 <= i < ls.len() && !has_prefix(ls[i], tag) {
        lemma_first_prefixed_from(ls, tag, i + 1);
    }
}

/// A text-mode `+CMGR` response: the sender (second header field, or
/// `未知号码`) and the following lines, both decoded where they are UCS-2 hex.
pub open spec fn cmgr_text_of(response: Seq<char>, slot: Option<u32>) -> Option<ParsedView> {
    let ks = kept_lines(str_lines(response), true);
    match first_prefixed_from(ks, "+CMGR:"@, 0) {
        None => None,
        Some(h) => {
            let fields = split_fields(trim(strip_prefix(ks[h], "+CMGR:"@).unwrap()), false);
            let sender = if fields.len() > 1 {
                fields[1]
            } else {
                "未知号码"@
            };
            Some(
                ParsedView {
                    sender: possible_ucs2(sender),
                    body: possible_ucs2(join(non_header_lines(ks, h + 1, ks.len() as int), "\n"@)),
                    concat: None,
                    slot: slot,
                },
            )
        },
    }
}

fn first_prefixed(ls: &Vec<Vec<char>>, tag: &str) -> (r: Option<usize>)
    ensures
        r matches Some(k) ==> first_prefixed_from(views_of(ls@), tag@, 0) == Some(k as int) && k
            < ls.len(),
        r is None ==> first_prefixed_from(views_of(ls@), tag@, 0) is None,
{
    let mut i: usize = 0;
    while i < ls.len()
        invariant
            0 <= i <= ls.len(),
            first_prefixed_from(views_of(ls@), tag@, 0) == first_prefixed_from(
                views_of(ls@),
                tag@,
                i as int,
            ),
        decreases ls.len() - i,
    {
        assert(views_of(ls@)[i as int] == ls@[i as int]@);
        if starts_with_str(&ls[i], tag) {
            return Some(i);
        }
        i = i + 1;
    }
    None
}

fn decoded(sender: &Vec<char>, body: &Vec<char>, slot: Option<u32>) -> (p: ParsedIncoming)
    ensures
        p@ == (ParsedView { sender: possible_ucs2(sender@), body: possible_ucs2(body@), concat: None, slot }),
        p.decoded.concat is None,
{
    let s = string_of(sender);
    let b = string_of(body);
    ParsedIncoming {
        decoded: DecodedSms {
            sender: decode_possible_ucs2(s.as_str()),
            body: decode_possible_ucs2(b.as_str()),
            concat: None,
        },
        slot,
    }
}

pub fn parse_cmgr_text(response: &str, slot: Option<u32>) -> (r: Option<ParsedIncoming>)
    ensures
        r matches Some(p) ==> cmgr_text_of(response@, slot) == Some(p@) && p.decoded.concat is None,
        r is None ==> cmgr_text_of(response@, slot) is None,
{
    let text = chars_of(response);
    let all = lines_of(&text);
    let ks = kept_lines_of(&all, true);
    let ghost kv = views_of(ks@);
    let h = match first_prefixed(&ks, "+CMGR:") {
        Some(h) => h,
        None => return None,
    };
    proof {
        lemma_first_prefixed_from(kv, "+CMGR:"@, 0);
        assert(kv[h as int] == ks@[h as int]@);
    }
    let rest = match crate::text::strip_prefix_str(&ks[h], "+CMGR:") {
        Some(p) => p,
        None => return None,
    };
    let t = trim_ws(&rest);
    let fields = split_field_chars(&t, false);
    let sender = if fields.len() > 1 {
        assert(views_of(fields@)[1] == fields@[1]@);
        let f = sub_chars(&fields[1], 0, fields[1].len());
        assert(f@ =~= fields@[1]@);
        f
    } else {
        chars_of("未知号码")
    };
    let mut body_lines: Vec<Vec<char>> = Vec::new();
    let mut j = h + 1;
    while j < ks.len()
        invariant
            h + 1 <= j <= ks.len(),
            kv == views_of(ks@),
            views_of(body_lines@) == non_header_lines(kv, h + 1, j as int),
        decreases ks.len() - j,
    {
        assert(kv[j as int] == ks@[j as int]@);
        if !starts_with_str(&ks[j], "+CMGR:") {
            let line = sub_chars(&ks[j], 0, ks[j].len());
            assert(line@ =~= kv[j as int]);
            let ghost before = views_of(body_lines@);
            body_lines.push(line);
            assert(views_of(body_lines@) =~= before.push(kv[j as int]));
        }
        j = j + 1;
    }
    let body = join_chars(&body_lines, "\n");
    Some(decoded(&sender, &body, slot))
}

/// `s` with every leading repetition of `p` removed (`str::trim_start_matches`).
pub open spec fn strip_all_prefix(s: Seq<char>, p: Seq<char>) -> Seq<char>
    decreases s.len(),
{
    if p.len() > 0 && has_prefix(s, p) {
        strip_all_prefix(s.subrange(p.len() as int, s.len() as int), p)
    } else {
        s
    }
}

fn strip_all_prefix_chars(s: &Vec<char>, p: &str) -> (r: Vec<char>)
    ensures
        r@ == strip_all_prefix(s@, p@),
{
    let pv = chars_of(p);
    let mut cur = sub_chars(s, 0, s.len());
    assert(cur@ =~= s@);
    while pv.len() > 0 && crate::text::starts_with(&cur, &pv)
        invariant
            pv@ == p@,
            strip_all_prefix(s@, p@) == strip_all_prefix(cur@, p@),
        decreases cur.len(),
    {
        cur = sub_chars(&cur, pv.len(), cur.len());
    }
    cur
}

/// The text-mode `+CMGL` records at or after kept line `i`: each header's
/// storage slot and sender (decoded where UCS-2 hex) and the one line after it.
pub open spec fn cmgl_text_from(ks: Seq<Seq<char>>, i: int) -> Seq<ParsedView>
    decreases ks.len() + 1 - i,
{
    if i < 0 || i >= ks.len() {
        Seq::empty()
    } else if has_prefix(ks[i], "+CMGL:"@) {
        let fields = split_fields(trim(strip_all_prefix(ks[i], "+CMGL:"@)), false);
        let sender = if fields.len() > 2 {
            fields[2]
        } else {
            "未知号码"@
        };
        let body = if i + 1 < ks.len() {
            ks[i + 1]
        } else {
            Seq::empty()
        };
        seq![
            ParsedView {
                sender: possible_ucs2(sender),
                body: possible_ucs2(body),
                concat: None,
                slot: parse_u32(fields[0]),
            },
        ]
            + cmgl_text_from(ks, i + 2)
    } else {
        cmgl_text_from(ks, i + 1)
    }
}

pub proof fn lemma_split_fields_nonempty(s: Seq<char>, strip_quotes: bool)
    ensures
        split_fields(s, strip_quotes).len() > 0,
{
}

pub fn parse_cmgl_text(response: &str) -> (r: Vec<ParsedIncoming>)
    ensures
        parsed_views(r@) == cmgl_text_from(kept_lines(str_lines(response@), false), 0),
{
    let text = chars_of(response);
    let all = lines_of(&text);
    let ks = kept_lines_of(&all, false);
    let ghost kv = views_of(ks@);
    let mut out: Vec<ParsedIncoming> = Vec::new();
    let mut i: usize = 0;
    while i < ks.len()
        invariant
            0 <= i <= ks.len(),
            kv == views_of(ks@),
            parsed_views(out@) + cmgl_text_from(kv, i as int) == cmgl_text_from(kv, 0),
        decreases ks.len() - i,
    {
        assert(kv[i as int] == ks@[i as int]@);
        if starts_with_str(&ks[i], "+CMGL:") {
            let stripped = strip_all_prefix_chars(&ks[i], "+CMGL:");
            let t = trim_ws(&stripped);
            let fields = split_field_chars(&t, false);
            proof {
                lemma_split_fields_nonempty(t@, false);
                assert(views_of(fields@)[0] == fields@[0]@);
            }
            let slot = parse_u32_chars(&fields[0]);
            let sender = if fields.len() > 2 {
                assert(views_of(fields@)[2] == fields@[2]@);
                let f = sub_chars(&fields[2], 0, fields[2].len());
                assert(f@ =~= fields@[2]@);
                f
            } else {
                chars_of("未知号码")
            };
            let body = if i + 1 < ks.len() {
                assert(kv[i + 1] == ks@[i + 1]@);
                let b = sub_chars(&ks[i + 1], 0, ks[i + 1].len());
                assert(b@ =~= kv[i + 1]);
                b
            } else {
                Vec::new()
            };
            let p = decoded(&sender, &body, slot);
            let ghost before = parsed_views(out@);
            out.push(p);
            assert(parsed_views(out@) =~= before.push(p@));
            assert(parsed_views(out@) + cmgl_text_from(kv, i + 2) =~= before + cmgl_text_from(
                kv,
                i as int,
            ));
            if i + 1 < ks.len() {
                i = i + 2;
            } else {
                i = ks.len();
            }
        } else {
            i = i + 1;
        }
    }
    assert(cmgl_text_from(kv, i as int) =~= Seq::<ParsedView>::empty());
    assert(parsed_views(out@) + cmgl_text_from(kv, i as int) =~= parsed_views(out@));
    out
}

// ---------------------------------------------------------------------------
// Discovery.
// ---------------------------------------------------------------------------

/// Words in a USB port's descriptor strings that mark it as a likely modem.
pub open spec fn modem_hint(haystack: Seq<char>) -> bool {
    ||| contains(haystack, "quectel"@)
    ||| contains(haystack, "fibocom"@)
    ||| contains(haystack, "sierra"@)
    ||| contains(haystack, "modem"@)
    ||| contains(haystack, "mobile"@)
    ||| contains(haystack, "wwan"@)
    ||| contains(haystack, "lte"@)
    ||| contains(haystack, "5g"@)
    ||| contains(haystack, "huawei"@)
    ||| contains(haystack, "zte"@)
}

pub open spec fn or_empty(o: Option<Seq<char>>) -> Seq<char> {
    match o {
        Some(s) => s,
        None => Seq::empty(),
    }
}

/// The capabilities the AT backend offers: receive, signal and operator.
pub open spec fn at_capabilities() -> CapabilitySet {
    CapabilitySet {
        data: false,
        sms_receive: true,
        sms_send: false,
        esim: false,
        signal: true,
        operator: true,
    }
}

/// The device entry for a serial port: a USB port is named by its product
/// (or its VID:PID), else by whether its descriptors look like a modem's.
pub open spec fn at_device_spec(port: SerialPortSummary, d: DeviceInfo) -> bool {
    let (manufacturer, product, likely) = match port.kind {
        SerialPortKind::Usb { vid, pid, manufacturer, product, .. } => (
            opt_view(manufacturer),
            match product {
                Some(p) => Some(p@),
                None => Some("USB "@ + hex4_lower(vid) + ":"@ + hex4_lower(pid)),
            },
            modem_hint(lower_seq(or_empty(opt_view(manufacturer)) + " "@ + or_empty(opt_view(product)))),
        ),
        _ => (None, None, false),
    };
    &&& d.id@ == "at:"@ + port.port_name@
    &&& d.name@ == match product {
        Some(p) => p,
        None => if likely {
            "蜂窝 AT Modem"@
        } else {
            "串口设备（可探测 AT）"@
        },
    }
    &&& d.backend == BackendKind::At
    &&& opt_view(d.port) == Some(port.port_name@)
    &&& opt_view(d.manufacturer) == manufacturer
    &&& opt_view(d.product) == product
    &&& d.capabilities == at_capabilities()
}

fn text_or_empty(o: &Option<String>) -> (r: Vec<char>)
    ensures
        r@ == or_empty(opt_view(*o)),
{
    match o {
        Some(s) => chars_of(s.as_str()),
        None => Vec::new(),
    }
}

pub fn at_device_info(port: &SerialPortSummary) -> (d: DeviceInfo)
    ensures
        at_device_spec(*port, d),
{
    let (manufacturer, product, likely) = match &port.kind {
        SerialPortKind::Usb { vid, pid, manufacturer, product, .. } => {
            let mut hay = text_or_empty(manufacturer);
            append_str(&mut hay, " ");
            let pv = text_or_empty(product);
            append_chars(&mut hay, &pv);
            let lower = crate::text::ascii_lower_chars(&hay);
            let likely = contains_str(&lower, "quectel") || contains_str(&lower, "fibocom")
                || contains_str(&lower, "sierra") || contains_str(&lower, "modem") || contains_str(
                &lower,
                "mobile",
            ) || contains_str(&lower, "wwan") || contains_str(&lower, "lte") || contains_str(
                &lower,
                "5g",
            ) || contains_str(&lower, "huawei") || contains_str(&lower, "zte");
            let product_name = match product {
                Some(p) => p.clone(),
                None => {
                    let mut v: Vec<char> = Vec::new();
                    append_str(&mut v, "USB ");
                    crate::text::push_hex4_lower(&mut v, *vid);
                    append_str(&mut v, ":");
                    crate::text::push_hex4_lower(&mut v, *pid);
                    string_of(&v)
                },
            };
            (crate::model::clone_opt_string(manufacturer), Some(product_name), likely)
        },
        _ => (None, None, false),
    };
    let name = match &product {
        Some(p) => p.clone(),
        None => if likely {
            str_to_string("蜂窝 AT Modem")
        } else {
            str_to_string("串口设备（可探测 AT）")
        },
    };
    let mut id = chars_of("at:");
    append_str(&mut id, port.port_name.as_str());
    DeviceInfo {
        id: string_of(&id),
        name,
        backend: BackendKind::At,
        port: Some(port.port_name.clone()),
        manufacturer,
        product,
        capabilities: CapabilitySet {
            data: false,
            sms_receive: true,
            sms_send: false,
            esim: false,
            signal: true,
            operator: true,
        },
    }
}

/// The device list for the serial ports that the system reports, one entry per port.
pub fn discover(ports: &[SerialPortSummary]) -> (r: Vec<DeviceInfo>)
    ensures
        r@.len() == ports@.len(),
        forall|i: int| 0 <= i < ports@.len() ==> at_device_spec(ports@[i], #[trigger] r@[i]),
{
    let mut out: Vec<DeviceInfo> = Vec::new();
    let mut i: usize = 0;
    while i < ports.len()
        invariant
            0 <= i <= ports@.len(),
            out@.len() == i,
            forall|k: int| 0 <= k < i ==> at_device_spec(ports@[k], #[trigger] out@[k]),
        decreases ports@.len() - i,
    {
        out.push(at_device_info(&ports[i]));
        i = i + 1;
    }
    out
}

// ---------------------------------------------------------------------------
// The receive session.
// ---------------------------------------------------------------------------

/// The session state once a port has answered `AT`: connected and ready to
/// receive, with the operator still being read.
pub open spec fn at_session_spec(port_name: Seq<char>, s: CellularSnapshot) -> bool {
    &&& s.backend == BackendKind::At
    &&& s.device_name@ == "AT Modem · "@ + port_name
    &&& s.operator_name@ == "正在读取运营商"@
    &&& s.network_type@ == "Cellular"@
    &&& s.signal_percent == 0
    &&& s.rssi_dbm is None
    &&& s.connected
    &&& s.sms_ready
    &&& !s.esim_ready
    &&& s.last_error is None
}

pub fn at_session_snapshot(port_name: &str) -> (s: CellularSnapshot)
    ensures
        at_session_spec(port_name@, s),
{
    let mut name = chars_of("AT Modem · ");
    append_str(&mut name, port_name);
    CellularSnapshot {
        backend: BackendKind::At,
        device_name: string_of(&name),
        operator_name: str_to_string("正在读取运营商"),
        network_type: str_to_string("Cellular"),
        signal_percent: 0,
        rssi_dbm: None,
        connected: true,
        sms_ready: true,
        esim_ready: false,
        last_error: None,
    }
}

/// The session state after an operator and signal query: each reading that
/// was obtained replaces the one held.
pub fn apply_radio_metadata(
    snapshot: CellularSnapshot,
    operator: Option<String>,
    csq: Option<(u8, Option<i32>)>,
) -> (r: CellularSnapshot)
    ensures
        r == (CellularSnapshot {
            operator_name: match operator {
                Some(n) => n,
                None => snapshot.operator_name,
            },
            signal_percent: match csq {
                Some((p, _)) => p,
                None => snapshot.signal_percent,
            },
            rssi_dbm: match csq {
                Some((_, d)) => d,
                None => snapshot.rssi_dbm,
            },
            ..snapshot
        }),
{
    let mut s = snapshot;
    if let Some(name) = operator {
        s.operator_name = name;
    }
    if let Some((percent, dbm)) = csq {
        s.signal_percent = percent;
        s.rssi_dbm = dbm;
    }
    s
}

/// Text mode is on when `AT+CMGF=1` got a reply without `ERROR` (in any case).
pub open spec fn text_mode_reply(reply: Result<String, String>) -> bool {
    match reply {
        Ok(t) => !contains(upper_seq(t@), "ERROR"@),
        Err(_) => false,
    }
}

pub fn text_mode_accepted(reply: &Result<String, String>) -> (b: bool)
    ensures
        b == text_mode_reply(*reply),
{
    match reply {
        Ok(t) => {
            let v = chars_of(t.as_str());
            let upper = ascii_upper_chars(&v);
            !contains_str(&upper, "ERROR")
        },
        Err(_) => false,
    }
}

/// The command that lists the stored messages in the session's mode.
pub fn list_command(text_mode: bool) -> (c: &'static str)
    ensures
        c@ == (if text_mode {
            "AT+CMGL=\"ALL\""@
        } else {
            "AT+CMGL=4"@
        }),
{
    if text_mode {
        "AT+CMGL=\"ALL\""
    } else {
        "AT+CMGL=4"
    }
}

/// The command that reads the message stored at `slot`.
pub fn read_command(slot: u32) -> (c: String)
    ensures
        c@ == "AT+CMGR="@ + crate::text::decimal(slot as nat),
{
    let mut v = chars_of("AT+CMGR=");
    crate::text::push_decimal(&mut v, slot as u64);
    string_of(&v)
}

/// Takes the first complete line (ending in CR LF) off the receive buffer:
/// the line comes back trimmed, and the buffer keeps what follows the CR LF.
pub fn take_crlf_line(rx: &mut String) -> (line: Option<String>)
    ensures
        match find(old(rx)@, "\r\n"@) {
            Some(k) => line matches Some(l) && l@ == trim(old(rx)@.subrange(0, k))
                && final(rx)@ == old(rx)@.subrange(k + 2, old(rx)@.len() as int),
            None => line is None && final(rx)@ == old(rx)@,
        },
{
    let v = chars_of(rx.as_str());
    let crlf = chars_of("\r\n");
    proof {
        reveal_strlit("\r\n");
    }
    match find_seq(&v, &crlf, 0) {
        Some(k) => {
            proof {
                lemma_find_from(v@, crlf@, 0);
            }
            let head = sub_chars(&v, 0, k);
            let t = trim_ws(&head);
            let tail = sub_chars(&v, k + 2, v.len());
            *rx = string_of(&tail);
            Some(string_of(&t))
        },
        None => None,
    }
}

pub open spec fn has_suffix(s: Seq<char>, p: Seq<char>) -> bool {
    p.len() <= s.len() && s.subrange(s.len() - p.len(), s.len() as int) == p
}

/// A command's reply is complete at a final `OK` or `ERROR` line, or when it ends in `OK`.
pub open spec fn reply_complete(output: Seq<char>) -> bool {
    contains(output, "\r\nOK\r\n"@) || contains(output, "\r\nERROR\r\n"@) || has_suffix(
        output,
        "OK\r\n"@,
    )
}

pub fn command_reply_done(output: &str) -> (b: bool)
    ensures
        b == reply_complete(output@),
{
    let v = chars_of(output);
    let tail = chars_of("OK\r\n");
    let ends = tail.len() <= v.len() && crate::text::starts_with_at(&v, &tail, v.len() - tail.len());
    proof {
        if tail.len() <= v.len() {
            assert(crate::text::occurs_at(v@, tail@, v.len() - tail.len()) == has_suffix(v@, tail@));
        }
    }
    contains_str(&v, "\r\nOK\r\n") || contains_str(&v, "\r\nERROR\r\n") || ends
}

/// What a command run gives: its reply, or an error naming the command when
/// the reply is blank.
pub open spec fn command_result(command: Seq<char>, output: Seq<char>) -> Result<Seq<char>, Seq<char>> {
    if trim(output).len() == 0 {
        Err(command + " 无响应"@)
    } else {
        Ok(output)
    }
}

pub fn command_outcome(command: &str, output: String) -> (r: Result<String, String>)
    ensures
        match r {
            Ok(o) => command_result(command@, output@) == Ok::<Seq<char>, Seq<char>>(o@),
            Err(e) => command_result(command@, output@) == Err::<Seq<char>, Seq<char>>(e@),
        },
{
    let v = chars_of(output.as_str());
    let t = trim_ws(&v);
    if t.len() == 0 {
        let mut msg = chars_of(command);
        append_str(&mut msg, " 无响应");
        return Err(string_of(&msg));
    }
    Ok(output)
}

/// The stored form of an SMS that the AT backend received at `received_at`
/// under the identifier `id`.
pub open spec fn at_sms_spec(sender: Seq<char>, body: Seq<char>, id: Seq<char>, received_at: Seq<char>, m: SmsMessage) -> bool {
    &&& m.id@ == id
    &&& m.sender@ == sender
    &&& m.body@ == body
    &&& m.received_at@ == received_at
    &&& m.unread
    &&& !m.archived
    &&& opt_view(m.code) == extracted_code(body)
    &&& m.category@ == category_of(body, extracted_code(body) is Some)
    &&& m.slot is None
}

pub fn new_sms_at(sender: String, body: String, id: String, received_at: String) -> (m: SmsMessage)
    ensures
        at_sms_spec(sender@, body@, id@, received_at@, m),
{
    let code = extract_code(body.as_str());
    let category = classify_message(body.as_str(), code.is_some());
    SmsMessage {
        id,
        sender,
        body,
        received_at,
        unread: true,
        archived: false,
        category: str_to_string(category),
        code,
        slot: None,
    }
}

/// A newly received SMS, with a random identifier and the current UTC time.
pub fn new_sms(sender: String, body: String) -> (m: SmsMessage)
    ensures
        exists|id: Seq<char>, t: Seq<char>| at_sms_spec(sender@, body@, id, t, m),
{
    let id = uuid_v4_text();
    let now = now_rfc3339();
    let ghost i = id@;
    let ghost t = now@;
    let m = new_sms_at(sender, body, id, now);
    assert(at_sms_spec(sender@, body@, i, t, m));
    m
}

// ---------------------------------------------------------------------------
// PDU-mode records.
// ---------------------------------------------------------------------------

/// `decode` may give `d` for the PDU text `line`.
pub open spec fn decodes_to<F: Fn(&str) -> Result<DecodedSms, String>>(
    decode: F,
    line: Seq<char>,
    d: DecodedSms,
) -> bool {
    exists|s: &str| s@ == line && #[trigger] decode.ensures((s,), Ok::<DecodedSms, String>(d))
}

/// `decode` may refuse the PDU text `line`.
pub open spec fn refused<F: Fn(&str) -> Result<DecodedSms, String>>(decode: F, line: Seq<char>) -> bool {
    exists|s: &str, e: String| s@ == line && #[trigger] decode.ensures((s,), Err::<DecodedSms, String>(e))
}

/// A PDU-mode `+CMGR` response gives the record decoded from the line after
/// its header, when there is such a line and the decoder accepts it.
pub open spec fn cmgr_pdu_spec<F: Fn(&str) -> Result<DecodedSms, String>>(
    response: Seq<char>,
    slot: Option<u32>,
    decode: F,
    r: Option<ParsedIncoming>,
) -> bool {
    let ks = kept_lines(str_lines(response), true);
    match first_prefixed_from(ks, "+CMGR:"@, 0) {
        None => r is None,
        Some(h) => if h + 1 >= ks.len() {
            r is None
        } else {
            match r {
                Some(p) => p.slot == slot && decodes_to(decode, ks[h + 1], p.decoded),
                None => refused(decode, ks[h + 1]),
            }
        },
    }
}

pub fn parse_cmgr_pdu<F: Fn(&str) -> Result<DecodedSms, String>>(
    response: &str,
    slot: Option<u32>,
    decode: &F,
) -> (r: Option<ParsedIncoming>)
    requires
        forall|s: &str| #[trigger] decode.requires((s,)),
    ensures
        cmgr_pdu_spec(response@, slot, *decode, r),
{
    let text = chars_of(response);
    let all = lines_of(&text);
    let ks = kept_lines_of(&all, true);
    let ghost kv = views_of(ks@);
    let h = match first_prefixed(&ks, "+CMGR:") {
        Some(h) => h,
        None => return None,
    };
    proof {
        lemma_first_prefixed_from(kv, "+CMGR:"@, 0);
    }
    if h + 1 >= ks.len() {
        return None;
    }
    assert(kv[h + 1] == ks@[h + 1]@);
    let line = string_of(&ks[h + 1]);
    let out = decode(line.as_str());
    match out {
        Ok(d) => {
            assert(decodes_to(*decode, kv[h + 1], d));
            Some(ParsedIncoming { decoded: d, slot })
        },
        Err(e) => {
            assert(refused(*decode, kv[h + 1]));
            None
        },
    }
}

/// The PDU-mode `+CMGL` records from kept line `i` on: each header's storage
/// slot and the record decoded from the line after it, where the decoder
/// accepts it. `out` is the list produced.
pub open spec fn cmgl_pdu_from<F: Fn(&str) -> Result<DecodedSms, String>>(
    ks: Seq<Seq<char>>,
    i: int,
    decode: F,
    out: Seq<ParsedIncoming>,
) -> bool
    decreases ks.len() + 1 - i, out.len(),
{
    if i < 0 || i >= ks.len() {
        out.len() == 0
    } else if has_prefix(ks[i], "+CMGL:"@) {
        let fields = split_fields(trim(strip_all_prefix(ks[i], "+CMGL:"@)), false);
        if i + 1 < ks.len() {
            ||| (out.len() > 0 && out[0].slot == parse_u32(fields[0]) && decodes_to(
                decode,
                ks[i + 1],
                out[0].decoded,
            ) && cmgl_pdu_from(ks, i + 2, decode, out.drop_first()))
            ||| (refused(decode, ks[i + 1]) && cmgl_pdu_from(ks, i + 2, decode, out))
        } else {
            out.len() == 0
        }
    } else {
        cmgl_pdu_from(ks, i + 1, decode, out)
    }
}

pub fn parse_cmgl_pdu<F: Fn(&str) -> Result<DecodedSms, String>>(response: &str, decode: &F) -> (r: Vec<
    ParsedIncoming,
>)
    requires
        forall|s: &str| #[trigger] decode.requires((s,)),
    ensures
        cmgl_pdu_from(kept_lines(str_lines(response@), true), 0, *decode, r@),
{
    let text = chars_of(response);
    let all = lines_of(&text);
    let ks = kept_lines_of(&all, true);
    let ghost kv = views_of(ks@);
    let mut out: Vec<ParsedIncoming> = Vec::new();
    let mut i: usize = 0;
    while i < ks.len()
        invariant
            0 <= i <= ks.len(),
            kv == views_of(ks@),
            kv == kept_lines(str_lines(response@), true),
            forall|s: &str| #[trigger] decode.requires((s,)),
            forall|rest: Seq<ParsedIncoming>|
                cmgl_pdu_from(kv, i as int, *decode, rest) ==> cmgl_pdu_from(
                    kv,
                    0,
                    *decode,
                    out@ + rest,
                ),
        decreases ks.len() - i,
    {
        assert(kv[i as int] == ks@[i as int]@);
        if starts_with_str(&ks[i], "+CMGL:") {
            let stripped = strip_all_prefix_chars(&ks[i], "+CMGL:");
            let t = trim_ws(&stripped);
            let fields = split_field_chars(&t, false);
            proof {
                lemma_split_fields_nonempty(t@, false);
                assert(views_of(fields@)[0] == fields@[0]@);
            }
            let slot = parse_u32_chars(&fields[0]);
            if i + 1 < ks.len() {
                assert(kv[i + 1] == ks@[i + 1]@);
                let line = string_of(&ks[i + 1]);
                let got = decode(line.as_str());
                let ghost before = out@;
                match got {
                    Ok(d) => {
                        assert(decodes_to(*decode, kv[i + 1], d));
                        let p = ParsedIncoming { decoded: d, slot };
                        out.push(p);
                        proof {
                            assert forall|rest: Seq<ParsedIncoming>|
                                cmgl_pdu_from(kv, i + 2, *decode, rest) implies cmgl_pdu_from(
                                kv,
                                0,
                                *decode,
                                out@ + rest,
                            ) by {
                                let full = seq![p] + rest;
                                assert(full.drop_first() =~= rest);
                                assert(cmgl_pdu_from(kv, i as int, *decode, full));
                                assert(before + full =~= out@ + rest);
                            }
                        }
                    },
                    Err(e) => {
                        assert(refused(*decode, kv[i + 1]));
                        proof {
                            assert forall|rest: Seq<ParsedIncoming>|
                                cmgl_pdu_from(kv, i + 2, *decode, rest) implies cmgl_pdu_from(
                                kv,
                                0,
                                *decode,
                                out@ + rest,
                            ) by {
                                assert(cmgl_pdu_from(kv, i as int, *decode, rest));
                            }
                        }
                    },
                }
                i = i + 2;
            } else {
                proof {
                    assert(cmgl_pdu_from(kv, i as int, *decode, Seq::<ParsedIncoming>::empty()));
                    assert(out@ + Seq::<ParsedIncoming>::empty() =~= out@);
                    assert(cmgl_pdu_from(kv, 0, *decode, out@));
                }
                return out;
            }
        } else {
            proof {
                assert forall|rest: Seq<ParsedIncoming>|
                    cmgl_pdu_from(kv, i + 1, *decode, rest) implies cmgl_pdu_from(
                    kv,
                    0,
                    *decode,
                    out@ + rest,
                ) by {
                    assert(cmgl_pdu_from(kv, i as int, *decode, rest));
                }
            }
            i = i + 1;
        }
    }
    proof {
        assert(cmgl_pdu_from(kv, i as int, *decode, Seq::<ParsedIncoming>::empty()));
        assert(out@ + Seq::<ParsedIncoming>::empty() =~= out@);
    }
    out
}

/// A `+CMGR` response in the session's mode.
pub fn parse_cmgr_any<F: Fn(&str) -> Result<DecodedSms, String>>(
    response: &str,
    text_mode: bool,
    slot: Option<u32>,
    decode: &F,
) -> (r: Option<ParsedIncoming>)
    requires
        forall|s: &str| #[trigger] decode.requires((s,)),
    ensures
        text_mode ==> match r {
            Some(p) => cmgr_text_of(response@, slot) == Some(p@),
            None => cmgr_text_of(response@, slot) is None,
        },
        !text_mode ==> cmgr_pdu_spec(response@, slot, *decode, r),
{
    if text_mode {
        parse_cmgr_text(response, slot)
    } else {
        parse_cmgr_pdu(response, slot, decode)
    }
}

/// A `+CMGL` response in the session's mode.
pub fn parse_cmgl_any<F: Fn(&str) -> Result<DecodedSms, String>>(
    response: &str,
    text_mode: bool,
    decode: &F,
) -> (r: Vec<ParsedIncoming>)
    requires
        forall|s: &str| #[trigger] decode.requires((s,)),
    ensures
        text_mode ==> parsed_views(r@) == cmgl_text_from(kept_lines(str_lines(response@), false), 0),
        !text_mode ==> cmgl_pdu_from(kept_lines(str_lines(response@), true), 0, *decode, r@),
{
    if text_mode {
        parse_cmgl_text(response)
    } else {
        parse_cmgl_pdu(response, decode)
    }
}

} // verus!
