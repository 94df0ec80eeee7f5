//! Log messages as plain data: embeds, and buttons under them.
use vstd::prelude::*;

verus! {

/// A field of an embed.
#[derive(Debug, PartialEq, Eq)]
pub struct EmbedField {
    pub name: String,
    pub value: String,
    pub inline: bool,
}

/// What an [`EmbedField`] says.
#[verifier::ext_equal]
pub struct FieldText {
    pub name: Seq<char>,
    pub value: Seq<char>,
    pub inline: bool,
}

impl View for EmbedField {
    type V = FieldText;

    open spec fn view(&self) -> FieldText {
        FieldText { name: self.name@, value: self.value@, inline: self.inline }
    }
}

/// An embed that shows an attached image.
#[derive(Debug, PartialEq, Eq)]
pub struct LogEmbed {
    pub title: Option<String>,
    pub description: Option<String>,
    /// Red, green and blue.
    pub colour: (u8, u8, u8),
    pub fields: Vec<EmbedField>,
    /// The attached file that it shows.
    pub attachment: String,
    /// Whether it says when it was made.
    pub timestamp: bool,
}

/// What a [`LogEmbed`] says.
#[verifier::ext_equal]
pub struct EmbedText {
    pub title: Option<Seq<char>>,
    pub description: Option<Seq<char>>,
    pub colour: (u8, u8, u8),
    pub fields: Seq<FieldText>,
    pub attachment: Seq<char>,
    pub timestamp: bool,
}

/// A text that may be missing.
pub open spec fn optional_text(s: Option<String>) -> Option<Seq<char>> {
    match s {
        Some(s) => Some(s@),
        None => None,
    }
}

impl View for LogEmbed {
    type V = EmbedText;

    open spec fn view(&self) -> EmbedText {
        EmbedText {
            title: optional_text(self.title),
            description: optional_text(self.description),
            colour: self.colour,
            fields: self.fields@.map_values(|f: EmbedField| f@),
            attachment: self.attachment@,
            timestamp: self.timestamp,
        }
    }
}

/// What each of a list of embeds says.
pub open spec fn embed_texts(embeds: Seq<LogEmbed>) -> Seq<EmbedText> {
    embeds.map_values(|e: LogEmbed| e@)
}

/// How a button looks.
#[derive(Debug, Clone, Copy, PartialEq, Eq, Structural)]
pub enum ButtonLook {
    Success,
    Secondary,
    Danger,
}

/// A button under a message.
#[derive(Debug, PartialEq, Eq)]
pub struct Button {
    /// What a click on it says.
    pub custom_id: String,
    pub label: String,
    pub look: ButtonLook,
}

/// What a [`Button`] says.
#[verifier::ext_equal]
pub struct ButtonText {
    pub custom_id: Seq<char>,
    pub label: Seq<char>,
    pub look: ButtonLook,
}

impl View for Button {
    type V = ButtonText;

    open spec fn view(&self) -> ButtonText {
        ButtonText { custom_id: self.custom_id@, label: self.label@, look: self.look }
    }
}

/// Buttons side by side.
#[derive(Debug, PartialEq, Eq)]
pub struct ButtonRow {
    pub buttons: Vec<Button>,
}

impl View for ButtonRow {
    type V = Seq<ButtonText>;

    open spec fn view(&self) -> Seq<ButtonText> {
        self.buttons@.map_values(|b: Button| b@)
    }
}

/// What each of a list of rows says.
pub open spec fn row_texts(rows: Seq<ButtonRow>) -> Seq<Seq<ButtonText>> {
    rows.map_values(|r: ButtonRow| r@)
}

} // verus!
