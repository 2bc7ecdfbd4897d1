//! What the chat history holds, and how each entry reads on screen.

use vstd::prelude::*;
use vstd::string::StringExecFns;
use crate::entity::{EntityView, PersonaView};
use crate::roster::Roster;
use crate::text::chain;

verus! {

/// What an announcement reports.
#[derive(Clone, Copy, Debug, PartialEq, Eq, Structural)]
pub enum Announcement {
    Joined,
    Left,
}

/// The colour in which a message is drawn.
#[derive(Clone, Copy, Debug, PartialEq, Eq, Structural)]
pub enum Color {
    /// The terminal's own colour.
    Default,
    Green,
    LightCyan,
}

/// One entry of the chat history.
#[derive(Debug, PartialEq, Eq)]
pub enum Message {
    /// Somebody joined or left.  `persona` is the roster slot of the entity;
    /// the text is made from its persona when the message is drawn.
    Announce { action: Announcement, persona: usize },
    /// A line of chat.
    Plain(String),
    /// The answer to `/info`, for the eyes of the session that asked.
    Dossier { contents: String, requested_by: usize },
}

/// The mathematical content of a [`Message`].
pub enum MessageView {
    Announce { action: Announcement, persona: usize },
    Plain(Seq<char>),
    Dossier { contents: Seq<char>, requested_by: usize },
}

impl View for Message {
    type V = MessageView;

    open spec fn view(&self) -> MessageView {
        match self {
            Message::Announce { action, persona } => MessageView::Announce {
                action: *action,
                persona: *persona,
            },
            Message::Plain(text) => MessageView::Plain(text@),
            Message::Dossier { contents, requested_by } => MessageView::Dossier {
                contents: contents@,
                requested_by: *requested_by,
            },
        }
    }
}

impl Clone for Message {
    fn clone(&self) -> (res: Self)
        ensures
            res@ == self@,
    {
        match self {
            Message::Announce { action, persona } => Message::Announce {
                action: *action,
                persona: *persona,
            },
            Message::Plain(text) => Message::Plain(text.clone()),
            Message::Dossier { contents, requested_by } => Message::Dossier {
                contents: contents.clone(),
                requested_by: *requested_by,
            },
        }
    }
}

/// The contents of a sequence of messages.
pub open spec fn message_views(messages: Seq<Message>) -> Seq<MessageView> {
    messages.map_values(|m: Message| m@)
}

/// A text and the colour to draw it in.
#[derive(Debug, PartialEq, Eq)]
pub struct Styled {
    pub content: String,
    pub color: Color,
}

/// The mathematical content of a [`Styled`].
pub struct StyledView {
    pub content: Seq<char>,
    pub color: Color,
}

impl View for Styled {
    type V = StyledView;

    open spec fn view(&self) -> StyledView {
        StyledView { content: self.content@, color: self.color }
    }
}

/// The contents of a sequence of styled texts.
pub open spec fn styled_views(texts: Seq<Styled>) -> Seq<StyledView> {
    texts.map_values(|t: Styled| t@)
}

/// The sentence that announces `action` of `persona`.
pub open spec fn announcement(action: Announcement, persona: PersonaView) -> Seq<char> {
    match action {
        Announcement::Joined => persona.name + " has joined the chat with "@
            + persona.role.label() + " privileges"@,
        Announcement::Left => persona.name + " with "@ + persona.role.label()
            + " privileges has left the chat"@,
    }
}

impl MessageView {
    /// Whether the message refers to a slot of a roster with `slots` slots.
    pub open spec fn wf(self, slots: nat) -> bool {
        self matches MessageView::Announce { persona, .. } ==> persona < slots
    }

    /// Whether the session with id `viewer` gets to see the message: a
    /// dossier is shown to the session that asked for it and to no other.
    pub open spec fn visible_to(self, viewer: usize) -> bool {
        self matches MessageView::Dossier { requested_by, .. } ==> requested_by == viewer
    }

    /// How the message reads on screen.  An announcement is made from the
    /// persona as the roster holds it now, and is green; a dossier is light
    /// cyan; a line of chat has no colour.
    pub open spec fn text_content(self, roster: Seq<EntityView>) -> StyledView {
        match self {
            MessageView::Announce { action, persona } => StyledView {
                content: announcement(action, roster[persona as int].persona),
                color: Color::Green,
            },
            MessageView::Plain(text) => StyledView { content: text, color: Color::Default },
            MessageView::Dossier { contents, .. } => StyledView {
                content: contents,
                color: Color::LightCyan,
            },
        }
    }
}

impl Message {
    /// Whether the session with id `viewer` gets to see the message; see
    /// [`MessageView::visible_to`].
    pub fn visible_to(&self, viewer: usize) -> (b: bool)
        ensures
            b == self@.visible_to(viewer),
    {
        match self {
            Message::Dossier { requested_by, .. } => *requested_by == viewer,
            _ => true,
        }
    }

    /// How the message reads on screen; see [`MessageView::text_content`].
    pub fn text_content(&self, roster: &Roster) -> (text: Styled)
        requires
            self@.wf(roster@.len()),
        ensures
            text@ == self@.text_content(roster@),
    {
        match self {
            Message::Announce { action, persona } => {
                let entity = roster.get(*persona);
                let role = entity.role().to_string();
                let content = match action {
                    Announcement::Joined => {
                        let mut content = chain(
                            entity.name().as_str(),
                            " has joined the chat with ",
                        );
                        content.append(role.as_str());
                        content.append(" privileges");
                        content
                    },
                    Announcement::Left => {
                        let mut content = chain(entity.name().as_str(), " with ");
                        content.append(role.as_str());
                        content.append(" privileges has left the chat");
                        content
                    },
                };
                Styled { content, color: Color::Green }
            },
            Message::Dossier { contents, .. } => Styled {
                content: contents.clone(),
                color: Color::LightCyan,
            },
            Message::Plain(text) => Styled { content: text.clone(), color: Color::Default },
        }
    }
}

} // verus!
