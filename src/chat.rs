use vstd::prelude::*;
use vstd::string::StringExecFns;

verus! {

broadcast use vstd::std_specs::vec::axiom_vec_index_decreases;

/// Colours a chat component can carry.
#[derive(Debug, Clone, Copy, PartialEq, Eq, Structural)]
pub enum ChatColor {
    Black,
    DarkBlue,
    DarkGreen,
    DarkAqua,
    DarkRed,
    DarkPurple,
    Gold,
    Gray,
    DarkGray,
    Blue,
    Green,
    Aqua,
    Red,
    LightPurple,
    Yellow,
    White,
}

/// A chat message as the server sends it: a bare string, a translated
/// template with arguments, or styled text with more components after it.
#[derive(Debug)]
pub enum ChatComponent {
    Text(String),
    Translate(TranslateObject),
    PlayerMessage(ChatObject),
}

/// Styled text followed by further components.
#[derive(Debug)]
pub struct ChatObject {
    pub text: String,
    /// Components appended after `text`; a bare string is a `Text`.
    pub extra: Vec<ChatComponent>,
    pub color: Option<ChatColor>,
    pub bold: Option<bool>,
    pub italic: Option<bool>,
    pub underlined: Option<bool>,
    pub strikethrough: Option<bool>,
    pub obfuscated: Option<bool>,
}

/// A translation key with the components filled into its template.
#[derive(Debug)]
pub struct TranslateObject {
    pub translate: String,
    pub with: Vec<ChatComponent>,
}

/// The plain text of a component.
pub open spec fn component_text(c: ChatComponent) -> Seq<char>
    decreases c,
{
    match c {
        ChatComponent::Text(t) => t@,
        ChatComponent::PlayerMessage(o) => o.text@ + extras_text(o.extra, o.extra@.len() as int),
        ChatComponent::Translate(t) => translate_text(t),
    }
}

/// The plain text of the first `n` components of `v`, one after another.
pub open spec fn extras_text(v: Vec<ChatComponent>, n: int) -> Seq<char>
    decreases v, n,
{
    if n <= 0 || n > v@.len() {
        seq![]
    } else {
        extras_text(v, n - 1) + component_text(v[n - 1])
    }
}

/// The plain text of a translated template: the two templates known here are
/// filled in, any other key shows as itself.
pub open spec fn translate_text(t: TranslateObject) -> Seq<char>
    decreases t,
{
    if t.translate@ == "chat.type.announcement"@ {
        if t.with@.len() == 2 {
            "[Server Announcement] "@ + component_text(t.with[0]) + ": "@ + component_text(t.with[1])
        } else {
            "[Server Announcement]"@
        }
    } else if t.translate@ == "chat.type.text"@ {
        if t.with@.len() == 2 {
            "["@ + component_text(t.with[0]) + "]: "@ + component_text(t.with[1])
        } else {
            "[Player Message]"@
        }
    } else {
        t.translate@
    }
}

impl ChatComponent {
    /// The text of the message without its styling.
    pub fn to_plain_text(&self) -> (r: String)
        ensures
            r@ == component_text(*self),
        decreases self, 0int,
    {
        match self {
            ChatComponent::Text(text) => text.clone(),
            ChatComponent::PlayerMessage(obj) => obj.to_plain_text(),
            ChatComponent::Translate(obj) => obj.to_plain_text(),
        }
    }
}

impl ChatObject {
    /// The text followed by the plain text of each extra component.
    pub fn to_plain_text(&self) -> (r: String)
        ensures
            r@ == self.text@ + extras_text(self.extra, self.extra@.len() as int),
        decreases self, 0int,
    {
        let mut result = self.text.clone();
        let mut i: usize = 0;
        while i < self.extra.len()
            invariant
                i <= self.extra@.len(),
                result@ == self.text@ + extras_text(self.extra, i as int),
            decreases self.extra@.len() - i,
        {
            let part = self.extra[i].to_plain_text();
            result.append(part.as_str());
            i = i + 1;
            assert(result@ =~= self.text@ + extras_text(self.extra, i as int));
        }
        result
    }
}

impl TranslateObject {
    /// The template filled in with the plain text of its arguments; an
    /// unknown key shows as itself.
    pub fn to_plain_text(&self) -> (r: String)
        ensures
            r@ == translate_text(*self),
        decreases self, 1int,
    {
        if self.translate == String::from_str("chat.type.announcement") {
            if self.with.len() == 2 {
                let mut r = String::from_str("[Server Announcement] ");
                let announcer = self.extract_plain_text(0);
                let message = self.extract_plain_text(1);
                r.append(announcer.as_str());
                r.append(": ");
                r.append(message.as_str());
                r
            } else {
                String::from_str("[Server Announcement]")
            }
        } else if self.translate == String::from_str("chat.type.text") {
            if self.with.len() == 2 {
                let mut r = String::from_str("[");
                let player = self.extract_plain_text(0);
                let message = self.extract_plain_text(1);
                r.append(player.as_str());
                r.append("]: ");
                r.append(message.as_str());
                r
            } else {
                String::from_str("[Player Message]")
            }
        } else {
            self.translate.clone()
        }
    }

    /// The plain text of argument `index`, empty where it is missing.
    pub fn extract_plain_text(&self, index: usize) -> (r: String)
        ensures
            r@ == if index < self.with@.len() {
                component_text(self.with[index as int])
            } else {
                Seq::<char>::empty()
            },
        decreases self, 0int,
    {
        if index < self.with.len() {
            self.with[index].to_plain_text()
        } else {
            String::new()
        }
    }
}

} // verus!
