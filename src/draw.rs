use vstd::prelude::*;

use crate::diagram::{row_view, timeline_view, DiagramView, EventView, SequenceDiagram, TimelineEvent};
use crate::group::{group_span, CaseView, Group, GroupView};
use crate::layout::{as_ints, byte_len, col_count, string_width, text_width, GridSize};
use crate::message::{LineStyle, MessageSent, MessageView, MESSAGE_FONT_SIZE};
use crate::note::{note_height, note_width, Note, NoteOrientation, NoteView, OrientationView};
use crate::participant::{
    count_covering, get_rendered_width, lifeline_offset_of, participant_height, rendered_width,
    Activation, ParticipantCreated, ParticipantKind, ParticipantView,
};
use crate::separator::{separator_height, separator_width, Separator, SeparatorView};

verus! {

#[derive(Clone, Copy, Debug, PartialEq, Eq, Structural)]
pub enum Colour {
    Black,
    MediumBlue,
    MediumPurple,
    Debug,
}

/// How a rectangle is filled and stroked.
#[derive(Clone, Copy, Debug, PartialEq, Eq, Structural)]
pub enum RectStyle {
    /// Participant boxes and activation bars.
    Plain,
    /// The translucent box around a group.
    GroupBox,
    /// The solid banner holding a group's label.
    GroupLabel,
    /// The box around a separator's label.
    Separator,
}

#[derive(Clone, Copy, Debug, PartialEq, Eq, Structural)]
pub enum Anchor {
    Start,
    Middle,
    Left,
}

/// One drawing operation at resolved coordinates.
#[derive(Clone, Debug, PartialEq, Eq)]
pub enum Primitive {
    Rect { x: i128, y: i128, width: i128, height: i128, radius: i128, style: RectStyle },
    /// Text, possibly of several lines; `bracketed` text is shown between square brackets.
    Text { text: String, bracketed: bool, x: i128, y: i128, font_size: u32, anchor: Anchor },
    Line { x1: i128, y1: i128, x2: i128, y2: i128, width: u8, dash: u8, colour: Colour },
    Arrow { x1: i128, y1: i128, x2: i128, y2: i128, dash: u8 },
    Stickman { x: i128, y: i128, width: i128, height: i128 },
    DbIcon { x: i128, y: i128, width: i128, height: i128 },
    NoteBox { x: i128, y: i128, width: i128, height: i128 },
}

pub ghost enum PrimitiveView {
    Rect { x: int, y: int, width: int, height: int, radius: int, style: RectStyle },
    Text { text: Seq<char>, bracketed: bool, x: int, y: int, font_size: u32, anchor: Anchor },
    Line { x1: int, y1: int, x2: int, y2: int, width: u8, dash: u8, colour: Colour },
    Arrow { x1: int, y1: int, x2: int, y2: int, dash: u8 },
    Stickman { x: int, y: int, width: int, height: int },
    DbIcon { x: int, y: int, width: int, height: int },
    NoteBox { x: int, y: int, width: int, height: int },
}

impl View for Primitive {
    type V = PrimitiveView;

    open spec fn view(&self) -> PrimitiveView {
        match self {
            Primitive::Rect { x, y, width, height, radius, style } => PrimitiveView::Rect {
                x: *x as int,
                y: *y as int,
                width: *width as int,
                height: *height as int,
                radius: *radius as int,
                style: *style,
            },
            Primitive::Text { text, bracketed, x, y, font_size, anchor } => PrimitiveView::Text {
                text: text@,
                bracketed: *bracketed,
                x: *x as int,
                y: *y as int,
                font_size: *font_size,
                anchor: *anchor,
            },
            Primitive::Line { x1, y1, x2, y2, width, dash, colour } => PrimitiveView::Line {
                x1: *x1 as int,
                y1: *y1 as int,
                x2: *x2 as int,
                y2: *y2 as int,
                width: *width,
                dash: *dash,
                colour: *colour,
            },
            Primitive::Arrow { x1, y1, x2, y2, dash } => PrimitiveView::Arrow {
                x1: *x1 as int,
                y1: *y1 as int,
                x2: *x2 as int,
                y2: *y2 as int,
                dash: *dash,
            },
            Primitive::Stickman { x, y, width, height } => PrimitiveView::Stickman {
                x: *x as int,
                y: *y as int,
                width: *width as int,
                height: *height as int,
            },
            Primitive::DbIcon { x, y, width, height } => PrimitiveView::DbIcon {
                x: *x as int,
                y: *y as int,
                width: *width as int,
                height: *height as int,
            },
            Primitive::NoteBox { x, y, width, height } => PrimitiveView::NoteBox {
                x: *x as int,
                y: *y as int,
                width: *width as int,
                height: *height as int,
            },
        }
    }
}

pub open spec fn prims_view(v: Seq<Primitive>) -> Seq<PrimitiveView> {
    v.map_values(|p: Primitive| p@)
}

pub open spec fn top(g: GridSize, row: int) -> int {
    g.row_bounds@[2 * row] as int
}

pub open spec fn bottom(g: GridSize, row: int) -> int {
    g.row_bounds@[2 * row + 1] as int
}

pub open spec fn center(g: GridSize, col: int) -> int {
    g.cols@[col + 1] as int
}

pub open spec fn grid_rows(g: GridSize) -> int {
    g.row_bounds@.len() as int / 2
}

pub open spec fn grid_width(g: GridSize) -> int {
    g.cols@.last() as int
}

/// The grid has a column boundary for each participant and the margins, and a top and a
/// bottom for each timeline row and the footer row.
pub open spec fn grid_for(d: DiagramView, g: GridSize) -> bool {
    &&& g.wf()
    &&& g.cols@.len() == col_count(d.participants.len())
    &&& g.row_bounds@.len() == 2 * (d.timeline.len() + 1) + 1
}

/// Dash length of a line style.
pub open spec fn dash_of(style: LineStyle) -> u8 {
    match style {
        LineStyle::Plain => 0,
        LineStyle::Dashed => 10,
    }
}

/// A participant's glyph centred on `x` with its top at `y`.
pub open spec fn glyph_spec(p: ParticipantView, x: int, y: int) -> Seq<PrimitiveView> {
    let f = p.config.font_size as int;
    let h = participant_height(p) as int;
    match p.kind {
        ParticipantKind::Default => {
            let w = rendered_width(p) as int;
            seq![
                PrimitiveView::Rect { x: x - w / 2, y, width: w, height: h, radius: f / 4, style: RectStyle::Plain },
                PrimitiveView::Text { text: p.label, bracketed: false, x, y: y + (h - f) / 2, font_size: p.config.font_size, anchor: Anchor::Middle },
            ]
        },
        ParticipantKind::Actor => {
            let sh = h * 2 / 3;
            seq![
                PrimitiveView::Stickman { x, y: y + sh, width: sh * 2 / 3, height: sh },
                PrimitiveView::Text { text: p.label, bracketed: false, x, y: y + sh, font_size: p.config.font_size, anchor: Anchor::Middle },
            ]
        },
        ParticipantKind::Database => {
            let w = text_width(byte_len(p.label), f as nat) as int;
            seq![
                PrimitiveView::DbIcon { x, y: y + h, width: w * 3 / 2, height: h },
                PrimitiveView::Text { text: p.label, bracketed: false, x, y: y + h - f * 11 / 6, font_size: p.config.font_size, anchor: Anchor::Middle },
            ]
        },
    }
}

/// The bar of one activation on the lifeline at `x`; an open bound runs to the first
/// content row or the last timeline row.
pub open spec fn bar_spec(g: GridSize, a: Activation, x: int) -> PrimitiveView {
    let start_y = match a.start {
        Some(r) => bottom(g, r as int) - 10,
        None => top(g, 1),
    };
    let end_y = match a.end {
        Some(r) => bottom(g, r as int) - 10,
        None => bottom(g, grid_rows(g) - 2),
    };
    PrimitiveView::Rect {
        x: x - 5 + a.nesting * 3,
        y: start_y,
        width: 10,
        height: end_y - start_y,
        radius: 0,
        style: RectStyle::Plain,
    }
}

pub open spec fn bars_spec(g: GridSize, acts: Seq<Activation>, x: int) -> Seq<PrimitiveView>
    decreases acts.len(),
{
    if acts.len() == 0 {
        seq![]
    } else {
        bars_spec(g, acts.drop_last(), x).push(bar_spec(g, acts.last(), x))
    }
}

/// A participant: its lifeline, its activation bars, and its glyph above its row and
/// again at the top of the footer row.
pub open spec fn participant_spec(d: DiagramView, g: GridSize, idx: int, row: int) -> Seq<PrimitiveView> {
    let p = d.participants[idx];
    let x = center(g, idx);
    let last = grid_rows(g) - 1;
    seq![
        PrimitiveView::Line { x1: x, y1: bottom(g, row), x2: x, y2: top(g, last), width: 3, dash: 0, colour: Colour::MediumBlue },
    ] + bars_spec(g, p.activations, x) + glyph_spec(p, x, bottom(g, row) - participant_height(p)) + glyph_spec(
        p,
        x,
        top(g, last),
    )
}

pub open spec fn offsets(d: DiagramView, p: usize, row: int) -> (int, int) {
    lifeline_offset_of(count_covering(d.participants[p as int].activations, row))
}

/// A message: an arrow between the lifelines (meeting their activation bars) with its
/// label centred above, or a loop back to the sender with the label beside it.
pub open spec fn message_spec(d: DiagramView, g: GridSize, m: MessageView, row: int) -> Seq<PrimitiveView> {
    let dash = dash_of(m.style);
    let f = MESSAGE_FONT_SIZE as int;
    if m.from == m.to {
        let y = top(g, row) + (bottom(g, row) - top(g, row)) / 2;
        let y_start = y - 20;
        let y_end = bottom(g, row) - 10;
        let x = center(g, m.from as int) + offsets(d, m.from, row).1;
        let xo = x + 35;
        seq![
            PrimitiveView::Line { x1: x, y1: y_start, x2: xo, y2: y_start, width: 1, dash, colour: Colour::Black },
            PrimitiveView::Line { x1: xo, y1: y_start, x2: xo, y2: y_end, width: 1, dash, colour: Colour::Black },
            PrimitiveView::Arrow { x1: xo, y1: y_end, x2: x, y2: y_end, dash },
            PrimitiveView::Text { text: m.label, bracketed: false, x: xo + 10, y: y_start, font_size: MESSAGE_FONT_SIZE, anchor: Anchor::Start },
        ]
    } else {
        let y = bottom(g, row) - 10;
        let so = if m.from < m.to { offsets(d, m.from, row).1 } else { offsets(d, m.from, row).0 };
        let dof = if m.from < m.to { offsets(d, m.to, row).0 } else { offsets(d, m.to, row).1 };
        let sx = center(g, m.from as int) + so;
        let dx = center(g, m.to as int) + dof;
        let lo = if sx < dx { sx } else { dx };
        let hi = if sx < dx { dx } else { sx };
        seq![
            PrimitiveView::Arrow { x1: sx, y1: y, x2: dx, y2: y, dash },
            PrimitiveView::Text { text: m.label, bracketed: false, x: (hi - lo) / 2 + lo, y: y - f - 5, font_size: MESSAGE_FONT_SIZE, anchor: Anchor::Middle },
        ]
    }
}

pub open spec fn seq_min(s: Seq<usize>) -> int
    decreases s.len(),
{
    if s.len() <= 1 {
        s[0] as int
    } else if (s.last() as int) < seq_min(s.drop_last()) {
        s.last() as int
    } else {
        seq_min(s.drop_last())
    }
}

pub open spec fn seq_max(s: Seq<usize>) -> int
    decreases s.len(),
{
    if s.len() <= 1 {
        s[0] as int
    } else if (s.last() as int) > seq_max(s.drop_last()) {
        s.last() as int
    } else {
        seq_max(s.drop_last())
    }
}

/// Left edge of a note's text. A note over participants is centred over the middle of
/// their columns (over the whole diagram when it names none), kept from passing either
/// outer margin.
pub open spec fn note_x(d: DiagramView, g: GridSize, n: NoteView) -> int {
    let w = note_width(n) as int;
    match n.orientation {
        OrientationView::LeftOf(p) => center(g, p as int) - w - 10,
        OrientationView::RightOf(p) => center(g, p as int) + 10,
        OrientationView::Over(ps) => {
            let c = if ps.len() == 0 {
                grid_width(g) / 2
            } else {
                (center(g, seq_max(ps)) + center(g, seq_min(ps))) / 2
            };
            let raised = if c - w / 2 > 0 { c - w / 2 } else { 0 };
            let clamped = if raised < grid_width(g) - w { raised } else { grid_width(g) - w };
            clamped + 5
        },
    }
}

pub open spec fn note_spec(d: DiagramView, g: GridSize, n: NoteView, row: int) -> Seq<PrimitiveView> {
    let x = note_x(d, g, n);
    seq![
        PrimitiveView::NoteBox { x: x - 5, y: top(g, row), width: note_width(n) as int + 10, height: note_height(n) as int },
        PrimitiveView::Text { text: n.label, bracketed: false, x, y: top(g, row), font_size: n.config.font_size, anchor: Anchor::Left },
    ]
}

/// A separator: two rules across the diagram at a third and two thirds of its row, and
/// its label boxed in the middle.
pub open spec fn separator_spec(g: GridSize, s: SeparatorView, row: int) -> Seq<PrimitiveView> {
    let h = bottom(g, row) - top(g, row);
    let gw = grid_width(g);
    let w = separator_width(s) as int;
    seq![
        PrimitiveView::Line { x1: 0, y1: bottom(g, row) - h / 3, x2: gw, y2: bottom(g, row) - h / 3, width: 1, dash: 0, colour: Colour::MediumPurple },
        PrimitiveView::Line { x1: 0, y1: bottom(g, row) - h * 2 / 3, x2: gw, y2: bottom(g, row) - h * 2 / 3, width: 1, dash: 0, colour: Colour::MediumPurple },
        PrimitiveView::Rect { x: (gw - w) / 2, y: top(g, row), width: w, height: separator_height(s) as int, radius: 0, style: RectStyle::Separator },
        PrimitiveView::Text { text: s.label, bracketed: false, x: gw / 2, y: top(g, row), font_size: s.config.font_size, anchor: Anchor::Middle },
    ]
}

pub open spec fn cases_spec(g: GridSize, cases: Seq<CaseView>, x: int, w: int, text_x: int, font_size: u32) -> Seq<PrimitiveView>
    decreases cases.len(),
{
    if cases.len() == 0 {
        seq![]
    } else {
        let c = cases.last();
        let y = top(g, c.row as int);
        cases_spec(g, cases.drop_last(), x, w, text_x, font_size) + seq![
            PrimitiveView::Line { x1: x, y1: y, x2: x + w, y2: y, width: 2, dash: 10, colour: Colour::MediumPurple },
            PrimitiveView::Text { text: c.label, bracketed: true, x: text_x, y, font_size, anchor: Anchor::Left },
        ]
    }
}

/// Horizontal extent of a group: the centres of the outermost columns it touches, or the
/// whole diagram when nothing inside touches a column.
pub open spec fn group_extent(d: DiagramView, g: GridSize, grp: GroupView) -> (int, int) {
    match group_span(d, grp.simple()) {
        Some(m) => (center(g, m.0 as int), center(g, m.1 as int)),
        None => (0, grid_width(g)),
    }
}

/// A group: its box from its first row to its last, its label banner with the header
/// beside it, and a divider with a label for each case of an alt group.
pub open spec fn group_spec(d: DiagramView, g: GridSize, grp: GroupView) -> Seq<PrimitiveView> {
    let sg = grp.simple();
    let f = sg.config.font_size as int;
    let y = top(g, sg.start as int);
    let (l, r) = group_extent(d, g, grp);
    let x = l - 10;
    let w = r - l + 20;
    let lw = text_width(byte_len(sg.label), f as nat) as int + 20;
    seq![
        PrimitiveView::Rect { x, y, width: w, height: bottom(g, sg.end as int) - y, radius: 5, style: RectStyle::GroupBox },
        PrimitiveView::Rect { x, y, width: lw, height: f * 13 / 10, radius: 5, style: RectStyle::GroupLabel },
        PrimitiveView::Text { text: sg.label, bracketed: false, x: l, y, font_size: sg.config.font_size, anchor: Anchor::Left },
    ] + (if sg.header.len() > 0 {
        seq![PrimitiveView::Text { text: sg.header, bracketed: true, x: x + lw + 10, y, font_size: sg.config.font_size, anchor: Anchor::Left }]
    } else {
        seq![]
    }) + match grp {
        GroupView::Alt(a) => cases_spec(g, a.cases, x, w, l, sg.config.font_size),
        GroupView::Simple(_) => seq![],
    }
}

/// What one event on row `row` draws.
pub open spec fn event_spec(d: DiagramView, g: GridSize, e: EventView, row: int) -> Seq<PrimitiveView> {
    match e {
        EventView::ParticipantCreated(p) => participant_spec(d, g, p as int, row),
        EventView::MessageSent(m) => message_spec(d, g, m, row),
        EventView::GroupStarted(i) => group_spec(d, g, d.groups[i as int]),
        EventView::Note(n) => note_spec(d, g, n, row),
        EventView::Separator(s) => separator_spec(g, s, row),
        _ => seq![],
    }
}


/// Bound on the magnitude of coordinates handed between drawing functions.
pub open spec fn small(v: int) -> bool {
    -0x100_0000_0000_0000_0000_0000_0000_0000 <= v <= 0x100_0000_0000_0000_0000_0000_0000_0000
}

fn half_floor(v: i128) -> (r: i128)
    requires
        small(v as int),
    ensures
        r as int == v as int / 2,
{
    if v >= 0 {
        v / 2
    } else {
        -((1 - v) / 2)
    }
}

fn text_at(content: &String, bracketed: bool, x: i128, y: i128, font_size: u32, anchor: Anchor) -> (r: Primitive)
    ensures
        r@ == (PrimitiveView::Text { text: content@, bracketed, x: x as int, y: y as int, font_size, anchor }),
{
    Primitive::Text { text: content.clone(), bracketed, x, y, font_size, anchor }
}

/// Appends a participant's box with its label centred inside.
pub fn draw_default_participant(p: &crate::participant::Participant, x: i128, y: i128, out: &mut Vec<Primitive>)
    requires
        small(x as int),
        small(y as int),
        p@.kind == ParticipantKind::Default,
    ensures
        prims_view(final(out)@) == prims_view(old(out)@) + glyph_spec(p@, x as int, y as int),
{
    let ghost before = prims_view(out@);
    let f = p.config.font_size as i128;
    let h = p.height() as i128;
    let w = get_rendered_width(p) as i128;
    out.push(Primitive::Rect { x: x - w / 2, y, width: w, height: h, radius: f / 4, style: RectStyle::Plain });
    out.push(text_at(&p.label, false, x, y + (h - f) / 2, p.config.font_size, Anchor::Middle));
    assert(prims_view(out@) =~= before + glyph_spec(p@, x as int, y as int));
}

/// Appends an actor's stick figure with its label below.
pub fn draw_actor(p: &crate::participant::Participant, x: i128, y: i128, out: &mut Vec<Primitive>)
    requires
        small(x as int),
        small(y as int),
        p@.kind == ParticipantKind::Actor,
    ensures
        prims_view(final(out)@) == prims_view(old(out)@) + glyph_spec(p@, x as int, y as int),
{
    let ghost before = prims_view(out@);
    let h = p.height() as i128;
    let sh = h * 2 / 3;
    out.push(Primitive::Stickman { x, y: y + sh, width: sh * 2 / 3, height: sh });
    out.push(text_at(&p.label, false, x, y + sh, p.config.font_size, Anchor::Middle));
    assert(prims_view(out@) =~= before + glyph_spec(p@, x as int, y as int));
}

/// Appends a datastore's cylinder with its label inside.
pub fn draw_database(p: &crate::participant::Participant, x: i128, y: i128, out: &mut Vec<Primitive>)
    requires
        small(x as int),
        small(y as int),
        p@.kind == ParticipantKind::Database,
    ensures
        prims_view(final(out)@) == prims_view(old(out)@) + glyph_spec(p@, x as int, y as int),
{
    let ghost before = prims_view(out@);
    let f = p.config.font_size as i128;
    let h = p.height() as i128;
    let w = string_width(p.label.as_str(), p.config.font_size) as i128;
    out.push(Primitive::DbIcon { x, y: y + h, width: w * 3 / 2, height: h });
    out.push(text_at(&p.label, false, x, y + h - f * 11 / 6, p.config.font_size, Anchor::Middle));
    assert(prims_view(out@) =~= before + glyph_spec(p@, x as int, y as int));
}

/// Appends the glyph of `p`, by its kind, centred on `x` with its top at `y`.
pub fn draw_participant(p: &crate::participant::Participant, x: i128, y: i128, out: &mut Vec<Primitive>)
    requires
        small(x as int),
        small(y as int),
    ensures
        prims_view(final(out)@) == prims_view(old(out)@) + glyph_spec(p@, x as int, y as int),
{
    match p.kind {
        ParticipantKind::Default => draw_default_participant(p, x, y, out),
        ParticipantKind::Actor => draw_actor(p, x, y, out),
        ParticipantKind::Database => draw_database(p, x, y, out),
    }
}

impl ParticipantCreated {
    /// Appends the participant's lifeline, activation bars and glyphs.
    pub fn draw(&self, d: &SequenceDiagram, grid: &GridSize, row: usize, out: &mut Vec<Primitive>)
        requires
            d@.wf(),
            grid_for(d@, *grid),
            row < d@.timeline.len(),
            self.participant < d@.participants.len(),
        ensures
            prims_view(final(out)@) == prims_view(old(out)@) + participant_spec(d@, *grid, self.participant as int, row as int),
    {
        let ghost before = prims_view(out@);
        let ps = d.get_participants();
        let p = &ps[self.participant];
        assert(p@ == d@.participants[self.participant as int]);
        let x = grid.get_col_center(self.participant) as i128;
        let last = grid.num_rows() - 1;
        let row_bottom = grid.get_row_bottom(row) as i128;
        let last_top = grid.get_row_top(last) as i128;
        out.push(Primitive::Line { x1: x, y1: row_bottom, x2: x, y2: last_top, width: 3, dash: 0, colour: Colour::MediumBlue });
        let ghost head = prims_view(out@);
        let first_top = grid.get_row_top(1) as i128;
        let open_end = grid.get_row_bottom(last - 1) as i128;
        let mut k: usize = 0;
        while k < p.activations.len()
            invariant
                d@.wf(),
                grid_for(d@, *grid),
                p@ == d@.participants[self.participant as int],
                crate::diagram::activations_within(p@.activations, d@.timeline.len()),
                x as int == center(*grid, self.participant as int),
                last as int == grid_rows(*grid) - 1,
                first_top as int == top(*grid, 1),
                open_end as int == bottom(*grid, grid_rows(*grid) - 2),
                k <= p.activations@.len(),
                prims_view(out@) == head + bars_spec(*grid, p.activations@.take(k as int), x as int),
            decreases p.activations@.len() - k,
        {
            let a = p.activations[k];
            let start_y: i128 = match a.start {
                Some(r) => grid.get_row_bottom(r) as i128 - 10,
                None => first_top,
            };
            let end_y: i128 = match a.end {
                Some(r) => grid.get_row_bottom(r) as i128 - 10,
                None => open_end,
            };
            let ghost prev = prims_view(out@);
            out.push(Primitive::Rect {
                x: x - 5 + a.nesting as i128 * 3,
                y: start_y,
                width: 10,
                height: end_y - start_y,
                radius: 0,
                style: RectStyle::Plain,
            });
            assert(p.activations@.take(k as int + 1).drop_last() =~= p.activations@.take(k as int));
            assert(p.activations@.take(k as int + 1).last() == a);
            assert(prims_view(out@) =~= prev.push(bar_spec(*grid, a, x as int)));
            k = k + 1;
        }
        assert(p.activations@.take(k as int) =~= p.activations@);
        let h = p.height() as i128;
        draw_participant(p, x, row_bottom - h, out);
        draw_participant(p, x, last_top, out);
        assert(prims_view(out@) =~= before + participant_spec(d@, *grid, self.participant as int, row as int));
    }
}


/// Appends a message between two participants: an arrow between their lifelines,
/// meeting their activation bars, with the label centred above.
pub fn draw_regular_message(d: &SequenceDiagram, msg: &crate::message::Message, row: usize, grid: &GridSize, out: &mut Vec<Primitive>)
    requires
        d@.wf(),
        grid_for(d@, *grid),
        row < d@.timeline.len(),
        msg.from < d@.participants.len(),
        msg.to < d@.participants.len(),
        msg.from != msg.to,
    ensures
        prims_view(final(out)@) == prims_view(old(out)@) + message_spec(d@, *grid, msg@, row as int),
{
    let ghost before = prims_view(out@);
    let ps = d.get_participants();
    assert(ps@[msg.from as int]@ == d@.participants[msg.from as int]);
    assert(ps@[msg.to as int]@ == d@.participants[msg.to as int]);
    let dash: u8 = match msg.style {
        LineStyle::Plain => 0,
        LineStyle::Dashed => 10,
    };
    let y = grid.get_row_bottom(row) as i128 - 10;
    let from_offset = ps[msg.from].lifeline_offset(row);
    let to_offset = ps[msg.to].lifeline_offset(row);
    let (src_offset, dest_offset) = if msg.from < msg.to {
        (from_offset.1, to_offset.0)
    } else {
        (from_offset.0, to_offset.1)
    };
    let src_x = grid.get_col_center(msg.from) as i128 + src_offset;
    let dest_x = grid.get_col_center(msg.to) as i128 + dest_offset;
    out.push(Primitive::Arrow { x1: src_x, y1: y, x2: dest_x, y2: y, dash });
    let (lo, hi) = if src_x < dest_x {
        (src_x, dest_x)
    } else {
        (dest_x, src_x)
    };
    out.push(text_at(&msg.label, false, (hi - lo) / 2 + lo, y - MESSAGE_FONT_SIZE as i128 - 5, MESSAGE_FONT_SIZE, Anchor::Middle));
    assert(from_offset.0 as int == offsets(d@, msg.from, row as int).0);
    assert(from_offset.1 as int == offsets(d@, msg.from, row as int).1);
    assert(to_offset.0 as int == offsets(d@, msg.to, row as int).0);
    assert(to_offset.1 as int == offsets(d@, msg.to, row as int).1);
    assert(prims_view(out@) =~= before + message_spec(d@, *grid, msg@, row as int));
}

/// Appends a message to its own sender: a loop out to the right of the lifeline and
/// back, with the label beside it.
pub fn draw_self_message(d: &SequenceDiagram, msg: &crate::message::Message, row: usize, grid: &GridSize, out: &mut Vec<Primitive>)
    requires
        d@.wf(),
        grid_for(d@, *grid),
        row < d@.timeline.len(),
        msg.from < d@.participants.len(),
        msg.from == msg.to,
    ensures
        prims_view(final(out)@) == prims_view(old(out)@) + message_spec(d@, *grid, msg@, row as int),
{
    let ghost before = prims_view(out@);
    let ps = d.get_participants();
    assert(ps@[msg.from as int]@ == d@.participants[msg.from as int]);
    let dash: u8 = match msg.style {
        LineStyle::Plain => 0,
        LineStyle::Dashed => 10,
    };
    let top_y = grid.get_row_top(row) as i128;
    let bottom_y = grid.get_row_bottom(row) as i128;
    assert(as_ints(grid.row_bounds@)[2 * row as int] <= as_ints(grid.row_bounds@)[2 * row as int + 1]);
    let y = top_y + (bottom_y - top_y) / 2;
    let y_start = y - 20;
    let y_end = bottom_y - 10;
    let offset = ps[msg.from].lifeline_offset(row);
    let x = grid.get_col_center(msg.from) as i128 + offset.1;
    let x_offset = x + 35;
    out.push(Primitive::Line { x1: x, y1: y_start, x2: x_offset, y2: y_start, width: 1, dash, colour: Colour::Black });
    out.push(Primitive::Line { x1: x_offset, y1: y_start, x2: x_offset, y2: y_end, width: 1, dash, colour: Colour::Black });
    out.push(Primitive::Arrow { x1: x_offset, y1: y_end, x2: x, y2: y_end, dash });
    out.push(text_at(&msg.label, false, x_offset + 10, y_start, MESSAGE_FONT_SIZE, Anchor::Start));
    assert(offset.1 as int == offsets(d@, msg.from, row as int).1);
    assert(prims_view(out@) =~= before + message_spec(d@, *grid, msg@, row as int));
}

/// Appends a message: a loop when it goes back to its sender, an arrow otherwise.
pub fn draw_message(d: &SequenceDiagram, msg: &crate::message::Message, row: usize, grid: &GridSize, out: &mut Vec<Primitive>)
    requires
        d@.wf(),
        grid_for(d@, *grid),
        row < d@.timeline.len(),
        msg.from < d@.participants.len(),
        msg.to < d@.participants.len(),
    ensures
        prims_view(final(out)@) == prims_view(old(out)@) + message_spec(d@, *grid, msg@, row as int),
{
    if msg.from == msg.to {
        draw_self_message(d, msg, row, grid, out);
    } else {
        draw_regular_message(d, msg, row, grid, out);
    }
}

impl MessageSent {
    /// Appends the message's arrow (or loop) and label.
    pub fn draw(&self, d: &SequenceDiagram, grid: &GridSize, row: usize, out: &mut Vec<Primitive>)
        requires
            d@.wf(),
            grid_for(d@, *grid),
            row < d@.timeline.len(),
            self.message.from < d@.participants.len(),
            self.message.to < d@.participants.len(),
        ensures
            prims_view(final(out)@) == prims_view(old(out)@) + message_spec(d@, *grid, self.message@, row as int),
    {
        draw_message(d, &self.message, row, grid, out);
    }
}

/// Leftmost and rightmost of a non-empty list of participant indices.
fn min_max(ps: &Vec<usize>) -> (r: (usize, usize))
    requires
        ps@.len() > 0,
    ensures
        r.0 as int == seq_min(ps@),
        r.1 as int == seq_max(ps@),
        ps@.contains(r.0),
        ps@.contains(r.1),
{
    let mut lo = ps[0];
    let mut hi = ps[0];
    let mut k: usize = 1;
    while k < ps.len()
        invariant
            1 <= k <= ps@.len(),
            lo as int == seq_min(ps@.take(k as int)),
            hi as int == seq_max(ps@.take(k as int)),
            ps@.contains(lo),
            ps@.contains(hi),
        decreases ps@.len() - k,
    {
        assert(ps@.take(k as int + 1).drop_last() =~= ps@.take(k as int));
        assert(ps@.take(k as int + 1).last() == ps@[k as int]);
        if ps[k] < lo {
            lo = ps[k];
        }
        if ps[k] > hi {
            hi = ps[k];
        }
        k = k + 1;
    }
    assert(ps@.take(k as int) =~= ps@);
    (lo, hi)
}

impl Note {
    /// Appends the note's box and text.
    pub fn draw(&self, d: &SequenceDiagram, grid: &GridSize, row: usize, out: &mut Vec<Primitive>)
        requires
            d@.wf(),
            grid_for(d@, *grid),
            row < d@.timeline.len(),
            d@.event_ok(EventView::Note(self@)),
        ensures
            prims_view(final(out)@) == prims_view(old(out)@) + note_spec(d@, *grid, self@, row as int),
    {
        let ghost before = prims_view(out@);
        let w = self.width() as i128;
        let x: i128 = match &self.orientation {
            NoteOrientation::LeftOf(p) => grid.get_col_center(*p) as i128 - w - 10,
            NoteOrientation::RightOf(p) => grid.get_col_center(*p) as i128 + 10,
            NoteOrientation::Over(ps) => {
                let c: i128 = if ps.len() == 0 {
                    grid.width() as i128 / 2
                } else {
                    let (lo, hi) = min_max(ps);
                    assert(self@.orientation == OrientationView::Over(ps@));
                    proof {
                        let nv = self@;
                        assert(d@.event_ok(EventView::Note(nv)));
                        match nv.orientation {
                            OrientationView::Over(qs) => {
                                assert(qs == ps@);
                                assert(forall|i: int| 0 <= i < qs.len() ==> #[trigger] qs[i] < d@.participants.len());
                            },
                            _ => {},
                        }
                    }
                    assert(forall|i: int| 0 <= i < ps@.len() ==> #[trigger] ps@[i] < d@.participants.len());
                    assert(hi < d@.participants.len()) by {
                        let i = choose|i: int| 0 <= i < ps@.len() && ps@[i] == hi;
                        assert(ps@[i] < d@.participants.len());
                    }
                    assert(lo < d@.participants.len()) by {
                        let i = choose|i: int| 0 <= i < ps@.len() && ps@[i] == lo;
                        assert(ps@[i] < d@.participants.len());
                    }
                    (grid.get_col_center(hi) as i128 + grid.get_col_center(lo) as i128) / 2
                };
                let raised = if c - w / 2 > 0 {
                    c - w / 2
                } else {
                    0
                };
                let room = grid.width() as i128 - w;
                let clamped = if raised < room {
                    raised
                } else {
                    room
                };
                clamped + 5
            },
        };
        assert(x as int == note_x(d@, *grid, self@));
        let y = grid.get_row_top(row) as i128;
        out.push(Primitive::NoteBox { x: x - 5, y, width: w + 10, height: self.height() as i128 });
        out.push(text_at(&self.label, false, x, y, self.config.font_size, Anchor::Left));
        assert(prims_view(out@) =~= before + note_spec(d@, *grid, self@, row as int));
    }
}

impl Separator {
    /// Appends the separator's rules, label box and label.
    pub fn draw(&self, grid: &GridSize, row: usize, out: &mut Vec<Primitive>)
        requires
            grid.wf(),
            2 * row + 1 < grid.row_bounds@.len(),
        ensures
            prims_view(final(out)@) == prims_view(old(out)@) + separator_spec(*grid, self@, row as int),
    {
        let ghost before = prims_view(out@);
        let height = grid.get_row_height(row) as i128;
        let bottom_y = grid.get_row_bottom(row) as i128;
        let top_y = grid.get_row_top(row) as i128;
        let gw = grid.width() as i128;
        out.push(Primitive::Line { x1: 0, y1: bottom_y - height / 3, x2: gw, y2: bottom_y - height / 3, width: 1, dash: 0, colour: Colour::MediumPurple });
        out.push(Primitive::Line { x1: 0, y1: bottom_y - height * 2 / 3, x2: gw, y2: bottom_y - height * 2 / 3, width: 1, dash: 0, colour: Colour::MediumPurple });
        let w = self.width() as i128;
        out.push(Primitive::Rect { x: half_floor(gw - w), y: top_y, width: w, height: self.height() as i128, radius: 0, style: RectStyle::Separator });
        out.push(text_at(&self.label, false, gw / 2, top_y, self.config.font_size, Anchor::Middle));
        assert(prims_view(out@) =~= before + separator_spec(*grid, self@, row as int));
    }
}


/// Appends the box, banner, header and case dividers of `group`.
pub fn draw_group(group: &Group, d: &SequenceDiagram, grid: &GridSize, out: &mut Vec<Primitive>)
    requires
        d@.wf(),
        grid_for(d@, *grid),
        group@.simple().start <= group@.simple().end <= d@.timeline.len(),
        crate::diagram::cases_within(group@, d@.timeline.len()),
    ensures
        prims_view(final(out)@) == prims_view(old(out)@) + group_spec(d@, *grid, group@),
{
    let ghost before = prims_view(out@);
    let sg = match group {
        Group::AltGroup(a) => a.get_simple_group(),
        Group::SimpleGroup(g) => g,
    };
    assert(sg@ == group@.simple());
    let f = sg.config.font_size;
    let y = grid.get_row_top(sg.start) as i128;
    let (l, r): (i128, i128) = match crate::group::calculate_x_pos(sg, d, grid) {
        Some((a, b)) => (a as i128, b as i128),
        None => (0, grid.width() as i128),
    };
    assert(l as int == group_extent(d@, *grid, group@).0 && r as int == group_extent(d@, *grid, group@).1);
    let x = l - 10;
    let w = r - l + 20;
    let end_y = grid.get_row_bottom(sg.end) as i128;
    out.push(Primitive::Rect { x, y, width: w, height: end_y - y, radius: 5, style: RectStyle::GroupBox });
    let lw = string_width(sg.label.as_str(), f) as i128 + 20;
    out.push(Primitive::Rect { x, y, width: lw, height: f as i128 * 13 / 10, radius: 5, style: RectStyle::GroupLabel });
    out.push(text_at(&sg.label, false, l, y, f, Anchor::Left));
    if !sg.header.as_str().is_empty() {
        out.push(text_at(&sg.header, true, x + lw + 10, y, f, Anchor::Left));
    }
    let ghost head = prims_view(out@);
    match group {
        Group::AltGroup(a) => {
            let cases = a.get_cases();
            let ghost cv = a@.cases;
            let mut k: usize = 0;
            while k < cases.len()
                invariant
                    grid_for(d@, *grid),
                    cv == cases@.map_values(|c: crate::group::Case| c@),
                    forall|c: int| 0 <= c < cv.len() ==> (#[trigger] cv[c]).row < d@.timeline.len(),
                    k <= cases@.len(),
                    prims_view(out@) == head + cases_spec(*grid, cv.take(k as int), x as int, w as int, l as int, f),
                    small(x as int),
                    small(w as int),
                    small(l as int),
                decreases cases@.len() - k,
            {
                let case = &cases[k];
                assert(case@ == cv[k as int]);
                let cy = grid.get_row_top(case.row) as i128;
                let ghost prev = prims_view(out@);
                out.push(Primitive::Line { x1: x, y1: cy, x2: x + w, y2: cy, width: 2, dash: 10, colour: Colour::MediumPurple });
                out.push(text_at(&case.label, true, l, cy, f, Anchor::Left));
                assert(cv.take(k as int + 1).drop_last() =~= cv.take(k as int));
                assert(cv.take(k as int + 1).last() == cv[k as int]);
                let ghost pair = seq![
                    PrimitiveView::Line { x1: x as int, y1: cy as int, x2: x + w, y2: cy as int, width: 2, dash: 10, colour: Colour::MediumPurple },
                    PrimitiveView::Text { text: cv[k as int].label, bracketed: true, x: l as int, y: cy as int, font_size: f, anchor: Anchor::Left },
                ];
                assert(prims_view(out@) =~= prev + pair);
                assert(cases_spec(*grid, cv.take(k as int + 1), x as int, w as int, l as int, f) == cases_spec(*grid, cv.take(k as int), x as int, w as int, l as int, f) + pair);
                assert(prims_view(out@) =~= head + cases_spec(*grid, cv.take(k as int + 1), x as int, w as int, l as int, f));
                k = k + 1;
            }
            assert(cv.take(k as int) =~= cv);
        },
        Group::SimpleGroup(_) => {},
    }
    assert(prims_view(out@) =~= before + group_spec(d@, *grid, group@));
}

impl TimelineEvent {
    /// Appends what this event draws on row `row`.
    pub fn draw(&self, d: &SequenceDiagram, grid: &GridSize, row: usize, out: &mut Vec<Primitive>)
        requires
            d@.wf(),
            grid_for(d@, *grid),
            row < d@.timeline.len(),
            d@.event_ok(self@),
        ensures
            prims_view(final(out)@) == prims_view(old(out)@) + event_spec(d@, *grid, self@, row as int),
    {
        match self {
            TimelineEvent::ParticipantCreated(e) => e.draw(d, grid, row, out),
            TimelineEvent::MessageSent(e) => e.draw(d, grid, row, out),
            TimelineEvent::GroupStarted(e) => {
                let groups = d.get_groups();
                assert(groups@[e.group as int]@ == d@.groups[e.group as int]);
                draw_group(&groups[e.group], d, grid, out);
            },
            TimelineEvent::Note(n) => n.draw(d, grid, row, out),
            TimelineEvent::Separator(s) => s.draw(grid, row, out),
            _ => {
                assert(prims_view(out@) =~= prims_view(old(out)@) + event_spec(d@, *grid, self@, row as int));
            },
        }
    }
}

/// What the events of one row draw, in order.
pub open spec fn row_spec(d: DiagramView, g: GridSize, evs: Seq<EventView>, row: int) -> Seq<PrimitiveView>
    decreases evs.len(),
{
    if evs.len() == 0 {
        seq![]
    } else {
        row_spec(d, g, evs.drop_last(), row) + event_spec(d, g, evs.last(), row)
    }
}

/// What the rows draw, in order.
pub open spec fn rows_spec(d: DiagramView, g: GridSize, rows: Seq<Seq<EventView>>) -> Seq<PrimitiveView>
    decreases rows.len(),
{
    if rows.len() == 0 {
        seq![]
    } else {
        rows_spec(d, g, rows.drop_last()) + row_spec(d, g, rows.last(), rows.len() - 1)
    }
}

pub open spec fn debug_line(x1: int, y1: int, x2: int, y2: int) -> PrimitiveView {
    PrimitiveView::Line { x1, y1, x2, y2, width: 1, dash: 10, colour: Colour::Debug }
}

/// A dashed line down each column boundary.
pub open spec fn col_lines(g: GridSize, cols: Seq<u32>) -> Seq<PrimitiveView>
    decreases cols.len(),
{
    if cols.len() == 0 {
        seq![]
    } else {
        col_lines(g, cols.drop_last()).push(
            debug_line(cols.last() as int, 0, cols.last() as int, g.row_bounds@.last() as int),
        )
    }
}

/// Dashed lines across the top and bottom of each of the first `n` rows.
pub open spec fn row_lines(g: GridSize, n: int) -> Seq<PrimitiveView>
    decreases n,
{
    if n <= 0 {
        seq![]
    } else {
        row_lines(g, n - 1) + seq![
            debug_line(0, top(g, n - 1), grid_width(g), top(g, n - 1)),
            debug_line(0, bottom(g, n - 1), grid_width(g), bottom(g, n - 1)),
        ]
    }
}

/// Everything the diagram draws: each event row by row, then, if asked for, the grid
/// lines.
pub open spec fn render_spec(d: DiagramView, g: GridSize, show_debug_lines: bool) -> Seq<PrimitiveView> {
    rows_spec(d, g, d.timeline) + if show_debug_lines {
        col_lines(g, g.cols@) + row_lines(g, grid_rows(g))
    } else {
        seq![]
    }
}

/// Appends dashed lines along every column boundary and across the top and bottom of
/// every row.
pub fn render_debug_lines(grid: &GridSize, out: &mut Vec<Primitive>)
    requires
        grid.wf(),
    ensures
        prims_view(final(out)@) == prims_view(old(out)@) + (col_lines(*grid, grid.cols@) + row_lines(*grid, grid_rows(*grid))),
{
    let ghost body = prims_view(out@);
    let height = grid.height() as i128;
    let width = grid.width() as i128;
    let mut c: usize = 0;
    while c < grid.cols.len()
        invariant
            grid.wf(),
            height as int == grid.row_bounds@.last() as int,
            c <= grid.cols@.len(),
            prims_view(out@) == body + col_lines(*grid, grid.cols@.take(c as int)),
        decreases grid.cols@.len() - c,
    {
        let x = grid.cols[c] as i128;
        let ghost prev = prims_view(out@);
        out.push(Primitive::Line { x1: x, y1: 0, x2: x, y2: height, width: 1, dash: 10, colour: Colour::Debug });
        assert(grid.cols@.take(c as int + 1).drop_last() =~= grid.cols@.take(c as int));
        assert(grid.cols@.take(c as int + 1).last() == grid.cols@[c as int]);
        assert(prims_view(out@) =~= prev.push(debug_line(x as int, 0, x as int, grid.row_bounds@.last() as int)));
        assert(col_lines(*grid, grid.cols@.take(c as int + 1)) == col_lines(*grid, grid.cols@.take(c as int)).push(
            debug_line(x as int, 0, x as int, grid.row_bounds@.last() as int)));
        assert(prims_view(out@) =~= body + col_lines(*grid, grid.cols@.take(c as int + 1)));
        c = c + 1;
    }
    assert(grid.cols@.take(c as int) =~= grid.cols@);
    let ghost cols_done = prims_view(out@);
    let n = grid.num_rows();
    let mut r: usize = 0;
    while r < n
        invariant
            grid.wf(),
            n as int == grid_rows(*grid),
            width as int == grid_width(*grid),
            r <= n,
            prims_view(out@) == cols_done + row_lines(*grid, r as int),
        decreases n - r,
    {
        let ty = grid.get_row_top(r) as i128;
        let by = grid.get_row_bottom(r) as i128;
        let ghost prev = prims_view(out@);
        out.push(Primitive::Line { x1: 0, y1: ty, x2: width, y2: ty, width: 1, dash: 10, colour: Colour::Debug });
        out.push(Primitive::Line { x1: 0, y1: by, x2: width, y2: by, width: 1, dash: 10, colour: Colour::Debug });
        assert(prims_view(out@) =~= prev + seq![
            debug_line(0, ty as int, width as int, ty as int),
            debug_line(0, by as int, width as int, by as int),
        ]);
        assert(row_lines(*grid, r as int + 1) == row_lines(*grid, r as int) + seq![
            debug_line(0, top(*grid, r as int), grid_width(*grid), top(*grid, r as int)),
            debug_line(0, bottom(*grid, r as int), grid_width(*grid), bottom(*grid, r as int)),
        ]);
        assert(prims_view(out@) =~= cols_done + row_lines(*grid, r as int + 1));
        r = r + 1;
    }
    assert(prims_view(out@) =~= body + (col_lines(*grid, grid.cols@) + row_lines(*grid, grid_rows(*grid))));
}

/// The drawing operations for the whole diagram on its resolved grid.
pub fn render(d: &SequenceDiagram, grid: &GridSize, show_debug_lines: bool) -> (r: Vec<Primitive>)
    requires
        d@.wf(),
        grid_for(d@, *grid),
    ensures
        prims_view(r@) == render_spec(d@, *grid, show_debug_lines),
{
    let mut out: Vec<Primitive> = Vec::new();
    let timeline = d.get_timeline();
    let mut i: usize = 0;
    assert(prims_view(out@) =~= rows_spec(d@, *grid, d@.timeline.take(0)));
    while i < timeline.len()
        invariant
            d@.wf(),
            grid_for(d@, *grid),
            timeline_view(timeline@) == d@.timeline,
            i <= timeline@.len(),
            prims_view(out@) == rows_spec(d@, *grid, d@.timeline.take(i as int)),
        decreases timeline@.len() - i,
    {
        let row = &timeline[i];
        let ghost evs = d@.timeline[i as int];
        assert(row_view(row@) == evs);
        let ghost head = prims_view(out@);
        let mut k: usize = 0;
        assert(head =~= head + row_spec(d@, *grid, evs.take(0), i as int));
        while k < row.len()
            invariant
                d@.wf(),
                grid_for(d@, *grid),
                i < d@.timeline.len(),
                evs == d@.timeline[i as int],
                row_view(row@) == evs,
                k <= row@.len(),
                prims_view(out@) == head + row_spec(d@, *grid, evs.take(k as int), i as int),
            decreases row@.len() - k,
        {
            assert(row@[k as int]@ == evs[k as int]);
            assert(evs.take(k as int + 1).drop_last() =~= evs.take(k as int));
            assert(evs.take(k as int + 1).last() == evs[k as int]);
            row[k].draw(d, grid, i, &mut out);
            assert(prims_view(out@) =~= head + row_spec(d@, *grid, evs.take(k as int + 1), i as int));
            k = k + 1;
        }
        assert(evs.take(k as int) =~= evs);
        assert(d@.timeline.take(i as int + 1).drop_last() =~= d@.timeline.take(i as int));
        assert(d@.timeline.take(i as int + 1).last() == evs);
        assert(prims_view(out@) =~= rows_spec(d@, *grid, d@.timeline.take(i as int + 1)));
        i = i + 1;
    }
    assert(d@.timeline.take(i as int) =~= d@.timeline);
    if show_debug_lines {
        render_debug_lines(grid, &mut out);
        assert(prims_view(out@) =~= render_spec(d@, *grid, show_debug_lines));
    } else {
        assert(prims_view(out@) =~= render_spec(d@, *grid, show_debug_lines));
    }
    out
}

} // verus!
