use vstd::prelude::*;

use crate::layout::{byte_len, spec_reserved, text_width, ReservedWidth};

verus! {

/// Font size of message labels.
#[derive(Clone, Copy, Debug, PartialEq, Eq, Structural)]
pub struct MessageConfig {
    pub font_size: u32,
}

/// Font size at which message labels are measured and drawn.
pub const MESSAGE_FONT_SIZE: u32 = 24;

/// Height of the arrow above the bottom of its row.
pub const ARROW_DISTANCE_FROM_BOTTOM: u32 = 10;

#[derive(Clone, Copy, Debug, PartialEq, Eq, Structural)]
pub enum LineStyle {
    Plain,
    Dashed,
}

/// An arrow from one participant to another (or to itself), by participant index.
#[derive(Clone, Debug)]
pub struct Message {
    pub from: usize,
    pub to: usize,
    pub label: String,
    pub style: LineStyle,
}

pub ghost struct MessageView {
    pub from: usize,
    pub to: usize,
    pub label: Seq<char>,
    pub style: LineStyle,
}

impl View for Message {
    type V = MessageView;

    open spec fn view(&self) -> MessageView {
        MessageView { from: self.from, to: self.to, label: self.label@, style: self.style }
    }
}

/// Timeline event: a message was sent.
#[derive(Clone, Debug)]
pub struct MessageSent {
    pub message: Message,
}

/// Vertical room a message needs: a loop back to the sender needs the most, an
/// unlabelled arrow the least.
pub open spec fn message_height(m: MessageView) -> nat {
    if m.from != m.to {
        if m.label.len() == 0 {
            20
        } else {
            40
        }
    } else {
        55
    }
}

/// The room a message asks for: its label's width plus a margin, between the boundaries
/// right of its two columns; a message to its own sender takes the next boundary instead.
pub open spec fn message_reserved_width(m: MessageView) -> ReservedWidth {
    spec_reserved(
        (m.from + 1) as usize,
        (if m.from == m.to { m.to + 2 } else { m.to + 1 }) as usize,
        (text_width(byte_len(m.label), MESSAGE_FONT_SIZE as nat) + 40) as u128,
    )
}

impl MessageSent {
    pub fn height(&self) -> (r: u128)
        ensures
            r == message_height(self.message@),
    {
        if self.message.from != self.message.to {
            if self.message.label.as_str().is_empty() {
                20
            } else {
                40
            }
        } else {
            55
        }
    }

    /// The columns the message touches, left one first.
    pub fn col_range(&self) -> (r: Option<(usize, usize)>)
        ensures
            r == Some(
                if self.message.from < self.message.to {
                    (self.message.from, self.message.to)
                } else {
                    (self.message.to, self.message.from)
                },
            ),
    {
        let from_idx = self.message.from;
        let to_idx = self.message.to;
        Some(
            if from_idx < to_idx {
                (from_idx, to_idx)
            } else {
                (to_idx, from_idx)
            },
        )
    }
}

} // verus!
