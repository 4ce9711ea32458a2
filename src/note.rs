use vstd::prelude::*;

use crate::layout::text_width;
use vstd::utf8::encode_utf8;

verus! {

/// Space between a note and the lifeline it is attached to.
pub const PARTICIPANT_MARGIN: u32 = 10;

/// Font size of note labels.
#[derive(Clone, Copy, Debug, PartialEq, Eq, Structural)]
pub struct NoteConfig {
    pub font_size: u32,
}

/// Where a note stands, by participant index.
#[derive(Clone, Debug)]
pub enum NoteOrientation {
    LeftOf(usize),
    RightOf(usize),
    Over(Vec<usize>),
}

pub ghost enum OrientationView {
    LeftOf(usize),
    RightOf(usize),
    Over(Seq<usize>),
}

impl View for NoteOrientation {
    type V = OrientationView;

    open spec fn view(&self) -> OrientationView {
        match self {
            NoteOrientation::LeftOf(p) => OrientationView::LeftOf(*p),
            NoteOrientation::RightOf(p) => OrientationView::RightOf(*p),
            NoteOrientation::Over(ps) => OrientationView::Over(ps@),
        }
    }
}

/// A note with a label of one or more lines.
#[derive(Clone, Debug)]
pub struct Note {
    pub orientation: NoteOrientation,
    pub label: String,
    pub config: NoteConfig,
}

pub ghost struct NoteView {
    pub orientation: OrientationView,
    pub label: Seq<char>,
    pub config: NoteConfig,
}

impl View for Note {
    type V = NoteView;

    open spec fn view(&self) -> NoteView {
        NoteView { orientation: self.orientation@, label: self.label@, config: self.config }
    }
}

/// Number of lines of the text encoded in `b`: one more than its line feeds.
pub open spec fn line_count(b: Seq<u8>) -> nat
    decreases b.len(),
{
    if b.len() == 0 {
        1
    } else {
        line_count(b.drop_last()) + if b.last() == 10u8 { 1nat } else { 0nat }
    }
}

/// Length in bytes of the last line of the text encoded in `b`.
pub open spec fn last_line_len(b: Seq<u8>) -> nat
    decreases b.len(),
{
    if b.len() == 0 {
        0
    } else if b.last() == 10u8 {
        0
    } else {
        last_line_len(b.drop_last()) + 1
    }
}

/// Length in bytes of the longest line of the text encoded in `b`.
pub open spec fn longest_line(b: Seq<u8>) -> nat
    decreases b.len(),
{
    if b.len() == 0 {
        0
    } else {
        let rest = longest_line(b.drop_last());
        if rest >= last_line_len(b) {
            rest
        } else {
            last_line_len(b)
        }
    }
}

/// Width of a note: its longest line measured at its font size.
pub open spec fn note_width(n: NoteView) -> nat {
    text_width(longest_line(encode_utf8(n.label)), n.config.font_size as nat)
}

/// Height of a note: a font height and a tenth per line, plus a third of the font size.
pub open spec fn note_height(n: NoteView) -> nat {
    (n.config.font_size as nat * line_count(encode_utf8(n.label))) * 11 / 10 + n.config.font_size as nat / 3
}

proof fn lemma_line_bounds(b: Seq<u8>)
    ensures
        line_count(b) <= b.len() + 1,
        last_line_len(b) <= longest_line(b) <= b.len(),
    decreases b.len(),
{
    if b.len() > 0 {
        lemma_line_bounds(b.drop_last());
    }
}

impl Note {
    /// Number of line feeds and length in bytes of the longest line of the label.
    fn measure_lines(&self) -> (r: (usize, usize))
        ensures
            r.0 + 1 == line_count(encode_utf8(self.label@)),
            r.1 == longest_line(encode_utf8(self.label@)),
    {
        let b = self.label.as_str().as_bytes();
        let ghost bytes = encode_utf8(self.label@);
        assert(b@ == bytes);
        let n = b.len();
        let mut breaks: usize = 0;
        let mut current: usize = 0;
        let mut longest: usize = 0;
        let mut i: usize = 0;
        while i < n
            invariant
                n == b@.len(),
                b@ == bytes,
                i <= n,
                breaks + 1 == line_count(bytes.take(i as int)),
                current == last_line_len(bytes.take(i as int)),
                longest == longest_line(bytes.take(i as int)),
            decreases n - i,
        {
            proof {
                lemma_line_bounds(bytes.take(i as int));
                assert(bytes.take(i as int + 1).drop_last() =~= bytes.take(i as int));
            }
            if b[i] == 10u8 {
                breaks = breaks + 1;
                current = 0;
            } else {
                current = current + 1;
                if current > longest {
                    longest = current;
                }
            }
            i = i + 1;
        }
        assert(bytes.take(i as int) =~= bytes);
        (breaks, longest)
    }

    pub fn width(&self) -> (r: u128)
        ensures
            r == note_width(self@),
            r < 0x1_0000_0000_0000_0000_0000_0000u128,
    {
        let (_, longest) = self.measure_lines();
        crate::layout::width_of_len(longest, self.config.font_size)
    }

    pub fn height(&self) -> (r: u128)
        ensures
            r == note_height(self@),
            r < 0x1_0000_0000_0000_0000_0000_0000_0u128,
    {
        let (breaks, _) = self.measure_lines();
        let f = self.config.font_size as u128;
        let l = breaks as u128 + 1;
        proof {
            assert(f * l <= 0x1_0000_0000u128 * 0x1_0000_0000_0000_0000u128) by (nonlinear_arith)
                requires f < 0x1_0000_0000u128, l <= 0x1_0000_0000_0000_0000u128;
        }
        (f * l) * 11 / 10 + f / 3
    }
}

} // verus!
