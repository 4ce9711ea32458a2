use vstd::prelude::*;

use crate::diagram::{col_range_of, row_view, timeline_view, DiagramView, EventView, SequenceDiagram};
use crate::layout::{col_count, GridSize};

verus! {

/// Font size of group banners.
#[derive(Clone, Copy, Debug, PartialEq, Eq, Structural)]
pub struct GroupConfig {
    pub font_size: u32,
}

/// Timeline event: a group starts (by group index).
#[derive(Clone, Copy, Debug, PartialEq, Eq, Structural)]
pub struct GroupStarted {
    pub group: usize,
}

/// Timeline event: the innermost open group ends.
#[derive(Clone, Copy, Debug, PartialEq, Eq, Structural)]
pub struct GroupEnded {}

/// Timeline event: an alt group (by group index) enters its next case.
#[derive(Clone, Copy, Debug, PartialEq, Eq, Structural)]
pub struct AltElse {
    pub group: usize,
}

/// Height of a group banner or case divider.
pub open spec fn banner_height(c: GroupConfig) -> nat {
    c.font_size as nat * 5 / 4
}

/// One "else" branch of an alt group: the row of its divider and its label.
#[derive(Clone, Debug)]
pub struct Case {
    pub row: usize,
    pub label: String,
}

pub ghost struct CaseView {
    pub row: usize,
    pub label: Seq<char>,
}

impl View for Case {
    type V = CaseView;

    open spec fn view(&self) -> CaseView {
        CaseView { row: self.row, label: self.label@ }
    }
}

/// A labelled box over the rows `start` up to `end`.
#[derive(Clone, Debug)]
pub struct SimpleGroup {
    pub start: usize,
    pub end: usize,
    pub label: String,
    pub header: String,
    pub config: GroupConfig,
}

pub ghost struct SimpleGroupView {
    pub start: usize,
    pub end: usize,
    pub label: Seq<char>,
    pub header: Seq<char>,
    pub config: GroupConfig,
}

impl View for SimpleGroup {
    type V = SimpleGroupView;

    open spec fn view(&self) -> SimpleGroupView {
        SimpleGroupView {
            start: self.start,
            end: self.end,
            label: self.label@,
            header: self.header@,
            config: self.config,
        }
    }
}

/// A group labelled "alt" whose cases divide it into branches.
#[derive(Clone, Debug)]
pub struct AltGroup {
    pub group: SimpleGroup,
    pub cases: Vec<Case>,
}

pub ghost struct AltGroupView {
    pub group: SimpleGroupView,
    pub cases: Seq<CaseView>,
}

impl View for AltGroup {
    type V = AltGroupView;

    open spec fn view(&self) -> AltGroupView {
        AltGroupView { group: self.group@, cases: self.cases@.map_values(|c: Case| c@) }
    }
}

#[derive(Clone, Debug)]
pub enum Group {
    SimpleGroup(SimpleGroup),
    AltGroup(AltGroup),
}

pub ghost enum GroupView {
    Simple(SimpleGroupView),
    Alt(AltGroupView),
}

impl View for Group {
    type V = GroupView;

    open spec fn view(&self) -> GroupView {
        match self {
            Group::SimpleGroup(g) => GroupView::Simple(g@),
            Group::AltGroup(g) => GroupView::Alt(g@),
        }
    }
}

impl GroupView {
    /// The box shared by both kinds of group.
    pub open spec fn simple(self) -> SimpleGroupView {
        match self {
            GroupView::Simple(g) => g,
            GroupView::Alt(g) => g.group,
        }
    }

    pub open spec fn ended(self, end: usize) -> GroupView {
        match self {
            GroupView::Simple(g) => GroupView::Simple(SimpleGroupView { end, ..g }),
            GroupView::Alt(g) => GroupView::Alt(
                AltGroupView { group: SimpleGroupView { end, ..g.group }, ..g },
            ),
        }
    }
}

impl Group {
    /// Records the row at which the group ends.
    pub fn end(&mut self, end: usize)
        ensures
            final(self)@ == old(self)@.ended(end),
    {
        match self {
            Group::SimpleGroup(g) => g.end(end),
            Group::AltGroup(g) => g.end(end),
        }
    }

    /// Appends a case at `row` if this is an alt group; returns whether it is one.
    pub fn add_case(&mut self, label: String, row: usize) -> (r: bool)
        ensures
            r == (old(self)@ is Alt),
            final(self)@ == match old(self)@ {
                GroupView::Alt(a) => GroupView::Alt(
                    AltGroupView { cases: a.cases.push(CaseView { row, label: label@ }), ..a },
                ),
                GroupView::Simple(g) => GroupView::Simple(g),
            },
    {
        match self {
            Group::AltGroup(g) => {
                g.add_case(label, row);
                true
            },
            Group::SimpleGroup(_) => false,
        }
    }

    pub fn config(&self) -> (r: GroupConfig)
        ensures
            r == self@.simple().config,
    {
        match self {
            Group::SimpleGroup(g) => g.config,
            Group::AltGroup(g) => g.get_simple_group().config,
        }
    }
}

impl SimpleGroup {
    /// A group that starts, and for now ends, at row `start`.
    pub fn new(start: usize, label: String, header: String, config: GroupConfig) -> (r: SimpleGroup)
        ensures
            r@ == (SimpleGroupView { start, end: start, label: label@, header: header@, config }),
    {
        SimpleGroup { start, end: start, label, header, config }
    }

    pub fn end(&mut self, end: usize)
        ensures
            final(self)@ == (SimpleGroupView { end, ..old(self)@ }),
    {
        self.end = end;
    }

    pub fn get_start(&self) -> (r: usize)
        ensures
            r == self.start,
    {
        self.start
    }

    pub fn get_end(&self) -> (r: usize)
        ensures
            r == self.end,
    {
        self.end
    }

    pub fn get_label(&self) -> (r: &str)
        ensures
            r@ == self.label@,
    {
        self.label.as_str()
    }

    pub fn get_header(&self) -> (r: &str)
        ensures
            r@ == self.header@,
    {
        self.header.as_str()
    }
}

/// Label of every alt group.
pub open spec fn alt_label() -> Seq<char> {
    seq!['a', 'l', 't']
}

impl AltGroup {
    /// An alt group with no cases that starts, and for now ends, at row `start`.
    pub fn new(start: usize, header: String, config: GroupConfig) -> (r: AltGroup)
        ensures
            r@ == (AltGroupView {
                group: SimpleGroupView { start, end: start, label: alt_label(), header: header@, config },
                cases: Seq::empty(),
            }),
    {
        let label = String::from_str("alt");
        proof {
            reveal_strlit("alt");
        }
        let group = SimpleGroup { start, end: start, label, header, config };
        let r = AltGroup { group, cases: Vec::new() };
        assert(r@.cases =~= Seq::<CaseView>::empty());
        assert(r@.group.label =~= alt_label());
        r
    }

    /// Appends a case at `row`; returns its index among the cases.
    pub fn add_case(&mut self, label: String, row: usize) -> (r: usize)
        ensures
            r == old(self)@.cases.len(),
            final(self)@ == (AltGroupView {
                cases: old(self)@.cases.push(CaseView { row, label: label@ }),
                ..old(self)@
            }),
    {
        let idx = self.cases.len();
        self.cases.push(Case { label, row });
        assert(self@.cases =~= old(self)@.cases.push(CaseView { row, label: label@ }));
        idx
    }

    pub fn end(&mut self, end: usize)
        ensures
            final(self)@ == (AltGroupView { group: SimpleGroupView { end, ..old(self)@.group }, ..old(self)@ }),
    {
        self.group.end(end);
    }

    pub fn get_simple_group(&self) -> (r: &SimpleGroup)
        ensures
            r == &self.group,
    {
        &self.group
    }

    pub fn get_cases(&self) -> (r: &Vec<Case>)
        ensures
            r == &self.cases,
    {
        &self.cases
    }
}


/// The smallest column range holding both ranges.
pub open spec fn merge_span(a: Option<(usize, usize)>, b: Option<(usize, usize)>) -> Option<(usize, usize)> {
    match (a, b) {
        (None, x) => x,
        (x, None) => x,
        (Some(p), Some(q)) => Some(
            (if p.0 <= q.0 { p.0 } else { q.0 }, if p.1 >= q.1 { p.1 } else { q.1 }),
        ),
    }
}

/// Leftmost and rightmost column touched by the events.
pub open spec fn events_span(d: DiagramView, evs: Seq<EventView>) -> Option<(usize, usize)>
    decreases evs.len(),
{
    if evs.len() == 0 {
        None
    } else {
        merge_span(events_span(d, evs.drop_last()), col_range_of(evs.last()))
    }
}

/// Leftmost and rightmost column touched by the events of the rows.
pub open spec fn rows_span(d: DiagramView, rows: Seq<Seq<EventView>>) -> Option<(usize, usize)>
    decreases rows.len(),
{
    if rows.len() == 0 {
        None
    } else {
        merge_span(rows_span(d, rows.drop_last()), events_span(d, rows.last()))
    }
}

/// Leftmost and rightmost column touched within the rows a group covers.
pub open spec fn group_span(d: DiagramView, g: SimpleGroupView) -> Option<(usize, usize)> {
    rows_span(d, d.timeline.subrange(g.start as int, g.end as int))
}

/// A merged range holds both ranges, and each of its ends is an end of one of them.
pub proof fn lemma_merge_span(a: Option<(usize, usize)>, b: Option<(usize, usize)>)
    ensures
        a matches Some(p) ==> merge_span(a, b) matches Some(m) && m.0 <= p.0 && p.1 <= m.1,
        b matches Some(q) ==> merge_span(a, b) matches Some(m) && m.0 <= q.0 && q.1 <= m.1,
        a is None && b is None ==> merge_span(a, b) is None,
{
}

/// Every column range the events touch lies within their span.
pub proof fn lemma_events_span_covers(d: DiagramView, evs: Seq<EventView>, k: int)
    requires
        0 <= k < evs.len(),
        col_range_of(evs[k]) is Some,
    ensures
        events_span(d, evs) matches Some(m) && m.0 <= col_range_of(evs[k])->Some_0.0
            && col_range_of(evs[k])->Some_0.1 <= m.1,
    decreases evs.len(),
{
    lemma_merge_span(events_span(d, evs.drop_last()), col_range_of(evs.last()));
    if k < evs.len() - 1 {
        assert(evs.drop_last()[k] == evs[k]);
        lemma_events_span_covers(d, evs.drop_last(), k);
    }
}

/// Every column range touched in the rows lies within their span.
pub proof fn lemma_rows_span_covers(d: DiagramView, rows: Seq<Seq<EventView>>, r: int, k: int)
    requires
        0 <= r < rows.len(),
        0 <= k < rows[r].len(),
        col_range_of(rows[r][k]) is Some,
    ensures
        rows_span(d, rows) matches Some(m) && m.0 <= col_range_of(rows[r][k])->Some_0.0
            && col_range_of(rows[r][k])->Some_0.1 <= m.1,
    decreases rows.len(),
{
    lemma_merge_span(rows_span(d, rows.drop_last()), events_span(d, rows.last()));
    if r < rows.len() - 1 {
        assert(rows.drop_last()[r] == rows[r]);
        lemma_rows_span_covers(d, rows.drop_last(), r, k);
    } else {
        lemma_events_span_covers(d, rows.last(), k);
    }
}

pub proof fn lemma_events_span_valid(d: DiagramView, evs: Seq<EventView>)
    requires
        forall|k: int| 0 <= k < evs.len() ==> d.event_ok(#[trigger] evs[k]),
    ensures
        events_span(d, evs) matches Some(m) ==> m.0 <= m.1 < d.participants.len(),
    decreases evs.len(),
{
    if evs.len() > 0 {
        assert forall|k: int| 0 <= k < evs.len() - 1 implies d.event_ok(#[trigger] evs.drop_last()[k]) by {
            assert(evs.drop_last()[k] == evs[k]);
        }
        lemma_events_span_valid(d, evs.drop_last());
        assert(d.event_ok(evs[evs.len() - 1]));
    }
}

pub proof fn lemma_rows_span_valid(d: DiagramView, rows: Seq<Seq<EventView>>)
    requires
        forall|r: int, k: int| 0 <= r < rows.len() && 0 <= k < rows[r].len() ==> d.event_ok(#[trigger] rows[r][k]),
    ensures
        rows_span(d, rows) matches Some(m) ==> m.0 <= m.1 < d.participants.len(),
    decreases rows.len(),
{
    if rows.len() > 0 {
        assert forall|r: int, k: int| 0 <= r < rows.len() - 1 && 0 <= k < rows.drop_last()[r].len() implies d.event_ok(
            #[trigger] rows.drop_last()[r][k]) by {
            assert(rows.drop_last()[r] == rows[r]);
        }
        lemma_rows_span_valid(d, rows.drop_last());
        assert forall|k: int| 0 <= k < rows.last().len() implies d.event_ok(#[trigger] rows.last()[k]) by {
            assert(rows.last() == rows[rows.len() - 1]);
        }
        lemma_events_span_valid(d, rows.last());
    }
}

/// Leftmost and rightmost participant column touched by the events in the rows the
/// group covers, gaps included; `None` when no event there touches a column.
pub fn group_col_range(group: &SimpleGroup, diagram: &SequenceDiagram) -> (r: Option<(usize, usize)>)
    requires
        diagram@.wf(),
        group.start <= group.end <= diagram@.timeline.len(),
    ensures
        r == group_span(diagram@, group@),
        r matches Some(m) ==> m.0 <= m.1 < diagram@.participants.len(),
{
    let timeline = diagram.get_timeline();
    let ghost rows = diagram@.timeline.subrange(group.start as int, group.end as int);
    let mut span: Option<(usize, usize)> = None;
    let mut i: usize = group.start;
    while i < group.end
        invariant
            diagram@.wf(),
            timeline_view(timeline@) == diagram@.timeline,
            group.start <= i <= group.end <= timeline@.len(),
            rows == diagram@.timeline.subrange(group.start as int, group.end as int),
            span == rows_span(diagram@, rows.take(i - group.start)),
        decreases group.end - i,
    {
        let row = &timeline[i];
        let ghost evs = diagram@.timeline[i as int];
        assert(row_view(row@) == evs);
        let ghost before = span;
        let mut row_span: Option<(usize, usize)> = None;
        let mut k: usize = 0;
        while k < row.len()
            invariant
                diagram@.wf(),
                row_view(row@) == evs,
                k <= row@.len(),
                row_span == events_span(diagram@, evs.take(k as int)),
            decreases row@.len() - k,
        {
            assert(row@[k as int]@ == evs[k as int]);
            assert(evs.take(k as int + 1).drop_last() =~= evs.take(k as int));
            assert(evs.take(k as int + 1).last() == evs[k as int]);
            row_span = merge_spans(row_span, row[k].col_range());
            k = k + 1;
        }
        assert(evs.take(k as int) =~= evs);
        span = merge_spans(span, row_span);
        assert(rows.take(i + 1 - group.start).drop_last() =~= rows.take(i - group.start));
        assert(rows.take(i + 1 - group.start).last() == evs);
        i = i + 1;
    }
    assert(rows.take(i - group.start) =~= rows);
    proof {
        lemma_rows_span_valid(diagram@, rows);
    }
    span
}

/// The smallest column range holding both ranges.
pub fn merge_spans(a: Option<(usize, usize)>, b: Option<(usize, usize)>) -> (r: Option<(usize, usize)>)
    ensures
        r == merge_span(a, b),
{
    match (a, b) {
        (None, x) => x,
        (x, None) => x,
        (Some(p), Some(q)) => Some(
            (if p.0 <= q.0 { p.0 } else { q.0 }, if p.1 >= q.1 { p.1 } else { q.1 }),
        ),
    }
}

/// Horizontal extent of a group: the centres of the leftmost and rightmost columns it
/// spans; `None` when no event inside touches a column.
pub fn calculate_x_pos(group: &SimpleGroup, diagram: &SequenceDiagram, grid: &GridSize) -> (r: Option<(u32, u32)>)
    requires
        diagram@.wf(),
        group.start <= group.end <= diagram@.timeline.len(),
        grid.cols@.len() == col_count(diagram@.participants.len()),
    ensures
        match group_span(diagram@, group@) {
            Some(m) => r == Some((grid.cols@[m.0 + 1], grid.cols@[m.1 + 1])),
            None => r is None,
        },
{
    match group_col_range(group, diagram) {
        Some((lo, hi)) => Some((grid.get_col_center(lo), grid.get_col_center(hi))),
        None => None,
    }
}

} // verus!
