use vstd::prelude::*;

use crate::layout::{byte_len, string_width, text_width};

verus! {

/// Font size of separator labels.
#[derive(Clone, Copy, Debug, PartialEq, Eq, Structural)]
pub struct SeparatorConfig {
    pub font_size: u32,
}

/// A labelled divider across the whole diagram.
#[derive(Clone, Debug)]
pub struct Separator {
    pub label: String,
    pub config: SeparatorConfig,
}

pub ghost struct SeparatorView {
    pub label: Seq<char>,
    pub config: SeparatorConfig,
}

impl View for Separator {
    type V = SeparatorView;

    open spec fn view(&self) -> SeparatorView {
        SeparatorView { label: self.label@, config: self.config }
    }
}

/// Width of the separator's label box: its label measured, plus a fifth.
pub open spec fn separator_width(s: SeparatorView) -> nat {
    text_width(byte_len(s.label), s.config.font_size as nat) * 12 / 10
}

/// Height of a separator row.
pub open spec fn separator_height(s: SeparatorView) -> nat {
    s.config.font_size as nat * 12 / 10
}

impl Separator {
    pub fn new(label: String, config: SeparatorConfig) -> (r: Separator)
        ensures
            r@ == (SeparatorView { label: label@, config }),
    {
        Separator { label, config }
    }

    pub fn width(&self) -> (r: u128)
        ensures
            r == separator_width(self@),
            r < 0x1_0000_0000_0000_0000_0000_0000_0u128,
    {
        string_width(self.label.as_str(), self.config.font_size) * 12 / 10
    }

    pub fn height(&self) -> (r: u128)
        ensures
            r == separator_height(self@),
    {
        self.config.font_size as u128 * 12 / 10
    }
}

} // verus!
