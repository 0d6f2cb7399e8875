use cellularhub::model::ConversationMeta;
use cellularhub::notification_center::{
    display_name, notification_text, toast_action, toast_xml, truncate, verification_code,
    xml_escape, ToastAction,
};

#[test]
fn codes_need_a_keyword() {
    assert_eq!(verification_code("您的登录码为 5521，请勿泄露"), Some("5521".into()));
    assert_eq!(verification_code("Your Passcode: 00123456"), Some("00123456".into()));
    assert_eq!(verification_code("订单 123456 已发货"), None);
    assert_eq!(verification_code("OTP 123"), None);
    assert_eq!(verification_code("otp 1234567890 or 7788"), Some("7788".into()));
}

#[test]
fn previews_are_cut_by_characters() {
    assert_eq!(truncate("短信", 2), "短信");
    assert_eq!(truncate("短信内容", 2), "短信...");
    assert_eq!(truncate("", 0), "");
}

#[test]
fn xml_special_characters_are_escaped() {
    assert_eq!(xml_escape("a&b<c>\"d'"), "a&amp;b&lt;c&gt;&quot;d&apos;");
    assert_eq!(xml_escape("&amp;"), "&amp;amp;");
}

#[test]
fn alias_is_shown_where_it_is_set() {
    let with_alias = ConversationMeta { sender: "10086".into(), alias: "Mobile".into(), notes: "".into(), pinned: false, updated_at: "".into() };
    assert_eq!(display_name("10086", Some(with_alias)), "Mobile");
    let blank = ConversationMeta { sender: "10086".into(), alias: "".into(), notes: "".into(), pinned: false, updated_at: "".into() };
    assert_eq!(display_name("10086", Some(blank)), "10086");
    assert_eq!(display_name("10086", None), "10086");
}

#[test]
fn notification_text_carries_the_code() {
    let n = notification_text("Mobile", "验证码 284193");
    assert_eq!(n.title, "SMS - Mobile");
    assert_eq!(n.body, "验证码 284193\nCode: 284193");
    let plain = notification_text("10010", "hello");
    assert_eq!(plain.body, "hello");
}

#[test]
fn toast_document_and_actions() {
    let xml = toast_xml("A&B", "body <1>", Some("1234"));
    assert_eq!(
        xml,
        "<toast launch=\"open\"><visual><binding template=\"ToastGeneric\"><text>SMS - A&amp;B</text><text>body &lt;1&gt;</text></binding></visual><actions><action content=\"复制 1234\" arguments=\"copy\" activationType=\"foreground\"/><action content=\"打开会话\" arguments=\"open\" activationType=\"foreground\"/></actions></toast>"
    );
    assert!(!toast_xml("x", "y", None).contains("arguments=\"copy\""));
    assert_eq!(toast_action("copy", true), ToastAction::CopyCode);
    assert_eq!(toast_action("copy", false), ToastAction::OpenConversation);
    assert_eq!(toast_action("open", true), ToastAction::OpenConversation);
}
