//! What an SMS notification says: the sender's display name, the preview of
//! the body, the verification code to offer for copying, and the Windows
//! toast document. Showing it is the application's part.

use vstd::prelude::*;

use crate::model::ConversationMeta;
use crate::sms::inbox::{find_code_run, first_code_run};
use crate::text::{
    append_chars, append_str, ascii_lower_chars, chars_of, contains, contains_str, lower_seq,
    string_of, sub_chars,
};

verus! {

/// Longest body preview in a plain notification, in characters.
pub const PREVIEW_CHARS: usize = 96;

/// Longest body preview in a Windows toast, in characters.
pub const TOAST_PREVIEW_CHARS: usize = 120;

/// The words that mark a body as carrying a one-time code: four Chinese terms
/// matched as written, four English ones matched on the ASCII-lower-cased body.
pub open spec fn has_otp_keyword(body: Seq<char>) -> bool {
    let lower = lower_seq(body);
    ||| contains(body, "验证码"@)
    ||| contains(body, "登录码"@)
    ||| contains(body, "动态密码"@)
    ||| contains(body, "安全码"@)
    ||| contains(lower, "otp"@)
    ||| contains(lower, "verification code"@)
    ||| contains(lower, "security code"@)
    ||| contains(lower, "passcode"@)
}

/// The code a notification offers: only for a body with a keyword, its first
/// run of 4 to 8 ASCII digits.
pub open spec fn notification_code(body: Seq<char>) -> Option<Seq<char>> {
    if has_otp_keyword(body) {
        first_code_run(body)
    } else {
        None
    }
}

pub open spec fn opt_text(o: Option<String>) -> Option<Seq<char>> {
    match o {
        Some(s) => Some(s@),
        None => None,
    }
}

pub fn verification_code(body: &str) -> (r: Option<String>)
    ensures
        opt_text(r) == notification_code(body@),
{
    let v = chars_of(body);
    let lower = ascii_lower_chars(&v);
    let keyword = contains_str(&v, "验证码") || contains_str(&v, "登录码") || contains_str(
        &v,
        "动态密码",
    ) || contains_str(&v, "安全码") || contains_str(&lower, "otp") || contains_str(
        &lower,
        "verification code",
    ) || contains_str(&lower, "security code") || contains_str(&lower, "passcode");
    if !keyword {
        return None;
    }
    match find_code_run(&v) {
        Some(run) => Some(string_of(&run)),
        None => None,
    }
}

/// A text cut to its first `max` characters, with `...` where something was cut.
pub open spec fn truncated(value: Seq<char>, max: nat) -> Seq<char> {
    if value.len() <= max {
        value
    } else {
        value.take(max as int) + "..."@
    }
}

pub fn truncate(value: &str, max: usize) -> (r: String)
    ensures
        r@ == truncated(value@, max as nat),
{
    let v = chars_of(value);
    if v.len() <= max {
        return string_of(&v);
    }
    let mut out = sub_chars(&v, 0, max);
    append_str(&mut out, "...");
    string_of(&out)
}

/// The XML entity for one character, or the character itself.
pub open spec fn xml_char(c: char) -> Seq<char> {
    if c == '&' {
        "&amp;"@
    } else if c == '<' {
        "&lt;"@
    } else if c == '>' {
        "&gt;"@
    } else if c == '"' {
        "&quot;"@
    } else if c == '\'' {
        "&apos;"@
    } else {
        seq![c]
    }
}

/// A text with the five XML special characters replaced by their entities.
pub open spec fn xml_escaped(s: Seq<char>) -> Seq<char>
    decreases s.len(),
{
    if s.len() == 0 {
        Seq::empty()
    } else {
        xml_escaped(s.drop_last()) + xml_char(s.last())
    }
}

pub fn xml_escape(value: &str) -> (r: String)
    ensures
        r@ == xml_escaped(value@),
{
    let v = chars_of(value);
    let mut out: Vec<char> = Vec::new();
    let mut i: usize = 0;
    while i < v.len()
        invariant
            0 <= i <= v.len(),
            out@ == xml_escaped(v@.take(i as int)),
        decreases v.len() - i,
    {
        let c = v[i];
        if c == '&' {
            append_str(&mut out, "&amp;");
        } else if c == '<' {
            append_str(&mut out, "&lt;");
        } else if c == '>' {
            append_str(&mut out, "&gt;");
        } else if c == '"' {
            append_str(&mut out, "&quot;");
        } else if c == '\'' {
            append_str(&mut out, "&apos;");
        } else {
            out.push(c);
        }
        assert(v@.take(i + 1).drop_last() =~= v@.take(i as int));
        assert(out@ =~= xml_escaped(v@.take(i + 1)));
        i = i + 1;
    }
    assert(v@.take(v.len() as int) =~= v@);
    string_of(&out)
}

/// How a sender is shown: the alias saved for the conversation where it is
/// not empty, else the sender itself.
pub open spec fn shown_name(sender: Seq<char>, meta: Option<ConversationMeta>) -> Seq<char> {
    match meta {
        Some(m) => if m.alias@.len() > 0 {
            m.alias@
        } else {
            sender
        },
        None => sender,
    }
}

pub fn display_name(sender: &str, meta: Option<ConversationMeta>) -> (r: String)
    ensures
        r@ == shown_name(sender@, meta),
{
    match meta {
        Some(m) => {
            let a = chars_of(m.alias.as_str());
            if a.len() > 0 {
                return m.alias;
            }
            crate::text::str_to_string(sender)
        },
        None => crate::text::str_to_string(sender),
    }
}

/// Title and body of a plain notification.
pub struct NotificationText {
    pub title: String,
    pub body: String,
}

pub open spec fn notification_title(display: Seq<char>) -> Seq<char> {
    "SMS - "@ + display
}

/// The body preview, with the code on a line of its own where there is one.
pub open spec fn notification_body(body: Seq<char>) -> Seq<char> {
    let preview = truncated(body, PREVIEW_CHARS as nat);
    match notification_code(body) {
        Some(code) => preview + "\nCode: "@ + code,
        None => preview,
    }
}

pub fn notification_text(display: &str, body: &str) -> (n: NotificationText)
    ensures
        n.title@ == notification_title(display@),
        n.body@ == notification_body(body@),
{
    let mut title: Vec<char> = Vec::new();
    append_str(&mut title, "SMS - ");
    append_str(&mut title, display);
    let preview = truncate(body, PREVIEW_CHARS);
    let mut text = chars_of(preview.as_str());
    match verification_code(body) {
        Some(code) => {
            append_str(&mut text, "\nCode: ");
            append_str(&mut text, code.as_str());
        },
        None => {},
    }
    NotificationText { title: string_of(&title), body: string_of(&text) }
}

/// The Windows toast document for an SMS: the escaped title and preview, a
/// copy action where there is a code, and an action that opens the conversation.
pub open spec fn toast_document(display: Seq<char>, body: Seq<char>, code: Option<Seq<char>>) -> Seq<
    char,
> {
    let title = xml_escaped("SMS - "@ + display);
    let preview = xml_escaped(truncated(body, TOAST_PREVIEW_CHARS as nat));
    let copy_action = match code {
        Some(c) => "<action content=\"复制 "@ + xml_escaped(c)
            + "\" arguments=\"copy\" activationType=\"foreground\"/>"@,
        None => Seq::empty(),
    };
    "<toast launch=\"open\"><visual><binding template=\"ToastGeneric\"><text>"@ + title
        + "</text><text>"@ + preview + "</text></binding></visual><actions>"@ + copy_action
        + "<action content=\"打开会话\" arguments=\"open\" activationType=\"foreground\"/></actions></toast>"@
}

pub fn toast_xml(display: &str, body: &str, code: Option<&str>) -> (r: String)
    ensures
        r@ == toast_document(
            display@,
            body@,
            match code {
                Some(c) => Some(c@),
                None => None,
            },
        ),
{
    let mut title_text: Vec<char> = Vec::new();
    append_str(&mut title_text, "SMS - ");
    append_str(&mut title_text, display);
    let title_s = string_of(&title_text);
    let title = xml_escape(title_s.as_str());
    let preview_s = truncate(body, TOAST_PREVIEW_CHARS);
    let preview = xml_escape(preview_s.as_str());
    let mut copy_action: Vec<char> = Vec::new();
    match code {
        Some(c) => {
            append_str(&mut copy_action, "<action content=\"复制 ");
            let escaped = xml_escape(c);
            append_str(&mut copy_action, escaped.as_str());
            append_str(&mut copy_action, "\" arguments=\"copy\" activationType=\"foreground\"/>");
        },
        None => {},
    }
    let mut out: Vec<char> = Vec::new();
    append_str(
        &mut out,
        "<toast launch=\"open\"><visual><binding template=\"ToastGeneric\"><text>",
    );
    append_str(&mut out, title.as_str());
    append_str(&mut out, "</text><text>");
    append_str(&mut out, preview.as_str());
    append_str(&mut out, "</text></binding></visual><actions>");
    append_chars(&mut out, &copy_action);
    append_str(
        &mut out,
        "<action content=\"打开会话\" arguments=\"open\" activationType=\"foreground\"/></actions></toast>",
    );
    string_of(&out)
}

/// What activating a toast does.
#[derive(Debug, Clone, Copy, PartialEq, Eq)]
pub enum ToastAction {
    /// Put the code on the clipboard (and open the conversation if that fails).
    CopyCode,
    /// Bring the window up on the conversation.
    OpenConversation,
}

/// A toast activated with `copy` copies the code where it has one; any other
/// activation opens the conversation.
pub fn toast_action(arguments: &str, has_code: bool) -> (a: ToastAction)
    ensures
        a == (if arguments@ == "copy"@ && has_code {
            ToastAction::CopyCode
        } else {
            ToastAction::OpenConversation
        }),
{
    let v = chars_of(arguments);
    if crate::text::chars_eq_str(&v, "copy") && has_code {
        ToastAction::CopyCode
    } else {
        ToastAction::OpenConversation
    }
}

} // verus!
