use gyra::chat::{ChatColor, ChatComponent, ChatObject, TranslateObject};

fn text(s: &str) -> ChatComponent {
    ChatComponent::Text(s.to_string())
}

fn object(s: &str, extra: Vec<ChatComponent>) -> ChatObject {
    ChatObject {
        text: s.to_string(),
        extra,
        color: Some(ChatColor::Gold),
        bold: Some(true),
        italic: None,
        underlined: None,
        strikethrough: None,
        obfuscated: None,
    }
}

#[test]
fn announcement_template() {
    let t = TranslateObject {
        translate: "chat.type.announcement".to_string(),
        with: vec![text("Server"), ChatComponent::PlayerMessage(object("Restarting", vec![]))],
    };
    assert_eq!(t.to_plain_text(), "[Server Announcement] Server: Restarting");
    let short = TranslateObject { translate: "chat.type.announcement".to_string(), with: vec![] };
    assert_eq!(short.to_plain_text(), "[Server Announcement]");
}

#[test]
fn player_chat_template() {
    let t = TranslateObject {
        translate: "chat.type.text".to_string(),
        with: vec![text("Steve"), text("hello there")],
    };
    assert_eq!(ChatComponent::Translate(t).to_plain_text(), "[Steve]: hello there");
    let one = TranslateObject { translate: "chat.type.text".to_string(), with: vec![text("x")] };
    assert_eq!(one.to_plain_text(), "[Player Message]");
    assert_eq!(one.extract_plain_text(0), "x");
    assert_eq!(one.extract_plain_text(3), "");
}

#[test]
fn unknown_key_shows_as_itself() {
    let t = TranslateObject { translate: "multiplayer.player.joined".to_string(), with: vec![text("A")] };
    assert_eq!(t.to_plain_text(), "multiplayer.player.joined");
}

#[test]
fn object_with_extras() {
    let nested = TranslateObject {
        translate: "chat.type.text".to_string(),
        with: vec![text("a"), text("b")],
    };
    let o = object("Hi ", vec![text("there"), ChatComponent::Translate(nested), text("!")]);
    assert_eq!(o.to_plain_text(), "Hi there[a]: b!");
    assert_eq!(ChatComponent::PlayerMessage(o).to_plain_text(), "Hi there[a]: b!");
}
