use vstd::prelude::*;

use crate::config::Config;
use crate::error::{Error, ErrorView};
use crate::group::{
    banner_height, AltElse, AltGroupView, CaseView, Group, GroupEnded, GroupStarted, GroupView,
};
use crate::layout::{spec_reserved, ReservedWidth};
use crate::message::{message_height, message_reserved_width, LineStyle, Message, MessageSent, MessageView, MESSAGE_FONT_SIZE};
use crate::note::{note_height, note_width, Note, NoteOrientation, NoteView, OrientationView};
use crate::participant::{
    Activation, activated, deactivated, open_count, participant_height, participant_width, Participant,
    ParticipantCreated, ParticipantKind, ParticipantView,
};
use crate::separator::{separator_height, separator_width, Separator, SeparatorView};

verus! {

/// One occurrence placed on the timeline.
#[derive(Clone, Debug)]
pub enum TimelineEvent {
    ParticipantCreated(ParticipantCreated),
    MessageSent(MessageSent),
    GroupStarted(GroupStarted),
    GroupEnded(GroupEnded),
    AltElse(AltElse),
    Note(Note),
    Separator(Separator),
}

pub ghost enum EventView {
    ParticipantCreated(usize),
    MessageSent(MessageView),
    GroupStarted(usize),
    GroupEnded,
    AltElse(usize),
    Note(NoteView),
    Separator(SeparatorView),
}

impl View for TimelineEvent {
    type V = EventView;

    open spec fn view(&self) -> EventView {
        match self {
            TimelineEvent::ParticipantCreated(e) => EventView::ParticipantCreated(e.participant),
            TimelineEvent::MessageSent(e) => EventView::MessageSent(e.message@),
            TimelineEvent::GroupStarted(e) => EventView::GroupStarted(e.group),
            TimelineEvent::GroupEnded(_) => EventView::GroupEnded,
            TimelineEvent::AltElse(e) => EventView::AltElse(e.group),
            TimelineEvent::Note(n) => EventView::Note(n@),
            TimelineEvent::Separator(s) => EventView::Separator(s@),
        }
    }
}

pub open spec fn row_view(row: Seq<TimelineEvent>) -> Seq<EventView> {
    row.map_values(|e: TimelineEvent| e@)
}

pub open spec fn timeline_view(t: Seq<Vec<TimelineEvent>>) -> Seq<Seq<EventView>> {
    t.map_values(|row: Vec<TimelineEvent>| row_view(row@))
}

pub open spec fn participants_view(ps: Seq<Participant>) -> Seq<ParticipantView> {
    ps.map_values(|p: Participant| p@)
}

pub open spec fn groups_view(gs: Seq<Group>) -> Seq<GroupView> {
    gs.map_values(|g: Group| g@)
}

/// Every bound of every activation is a row before `rows`.
pub open spec fn activations_within(acts: Seq<Activation>, rows: nat) -> bool {
    forall|a: int|
        0 <= a < acts.len() ==> ((#[trigger] acts[a]).start matches Some(s) ==> s < rows) && (
        acts[a].end matches Some(e) ==> e < rows)
}

/// Whether a group's end is still to come: until it ends, a group ends where it starts.
pub open spec fn is_open(g: GroupView) -> bool {
    g.simple().end == g.simple().start
}

/// Every case of an alt group is on a row after the group's first and before `rows`,
/// and before its end once it has ended.
pub open spec fn cases_within(g: GroupView, rows: nat) -> bool {
    match g {
        GroupView::Alt(a) => forall|c: int|
            0 <= c < a.cases.len() ==> a.group.start < (#[trigger] a.cases[c]).row < rows && (
            a.group.end != a.group.start ==> a.cases[c].row < a.group.end),
        GroupView::Simple(_) => true,
    }
}

/// The participant columns `e` touches, leftmost first, if any.
pub open spec fn col_range_of(e: EventView) -> Option<(usize, usize)> {
    match e {
        EventView::ParticipantCreated(p) => Some((p, p)),
        EventView::MessageSent(m) => Some(
            if m.from < m.to {
                (m.from, m.to)
            } else {
                (m.to, m.from)
            },
        ),
        _ => None,
    }
}

/// The model of a diagram: participants and groups addressed by index, and the
/// timeline, one sequence of events per row.
pub ghost struct DiagramView {
    pub participants: Seq<ParticipantView>,
    pub groups: Seq<GroupView>,
    pub timeline: Seq<Seq<EventView>>,
    pub config: Config,
}

/// Index of the first participant of `ps` called `name`.
pub open spec fn first_named(ps: Seq<ParticipantView>, name: Seq<char>) -> Option<usize>
    decreases ps.len(),
{
    if ps.len() == 0 {
        None
    } else {
        match first_named(ps.drop_last(), name) {
            Some(i) => Some(i),
            None => if ps.last().name == name {
                Some((ps.len() - 1) as usize)
            } else {
                None
            },
        }
    }
}

pub proof fn lemma_first_named(ps: Seq<ParticipantView>, name: Seq<char>)
    requires
        ps.len() <= usize::MAX,
    ensures
        first_named(ps, name) matches Some(i) ==> i < ps.len() && ps[i as int].name == name
            && forall|j: int| 0 <= j < i ==> (#[trigger] ps[j]).name != name,
        first_named(ps, name) is None ==> forall|j: int| 0 <= j < ps.len() ==> (#[trigger] ps[j]).name != name,
    decreases ps.len(),
{
    if ps.len() > 0 {
        let rest = ps.drop_last();
        lemma_first_named(rest, name);
        assert forall|j: int| 0 <= j < ps.len() - 1 implies #[trigger] ps[j] == rest[j] by {}
        if first_named(rest, name) is None {
            assert forall|j: int| 0 <= j < ps.len() - 1 implies (#[trigger] ps[j]).name != name by {
                assert(rest[j].name != name);
            }
        }
    }
}

impl DiagramView {
    /// The participants and groups that an event names exist.
    pub open spec fn event_ok(self, e: EventView) -> bool {
        let n = self.participants.len();
        match e {
            EventView::ParticipantCreated(p) => p < n,
            EventView::MessageSent(m) => m.from < n && m.to < n,
            EventView::GroupStarted(g) => g < self.groups.len(),
            EventView::GroupEnded => true,
            EventView::AltElse(g) => g < self.groups.len(),
            EventView::Note(note) => match note.orientation {
                OrientationView::LeftOf(p) => p < n,
                OrientationView::RightOf(p) => p < n,
                OrientationView::Over(ps) => forall|i: int| 0 <= i < ps.len() ==> #[trigger] ps[i] < n,
            },
            EventView::Separator(_) => true,
        }
    }

    pub open spec fn wf(self) -> bool {
        &&& self.timeline.len() >= 1
        &&& self.participants.len() + 2 <= usize::MAX
        &&& forall|i: int| 0 <= i < self.participants.len() ==> (#[trigger] self.participants[i]).idx == i
        &&& forall|r: int, k: int|
            0 <= r < self.timeline.len() && 0 <= k < self.timeline[r].len() ==> self.event_ok(
                #[trigger] self.timeline[r][k],
            )
        &&& forall|g: int|
            0 <= g < self.groups.len() ==> (#[trigger] self.groups[g]).simple().start
                <= self.groups[g].simple().end <= self.timeline.len() && self.groups[g].simple().start
                < self.timeline.len()
        &&& forall|g: int|
            0 <= g < self.groups.len() ==> cases_within(#[trigger] self.groups[g], self.timeline.len())
        &&& forall|i: int|
            0 <= i < self.participants.len() ==> activations_within(
                (#[trigger] self.participants[i]).activations,
                self.timeline.len(),
            )
    }

    /// Index of the rightmost column boundary.
    pub open spec fn rightmost_col(self) -> usize {
        if self.participants.len() == 0 {
            0
        } else {
            (self.participants.len() + 1) as usize
        }
    }

    /// Minimum height of the row holding `e`.
    pub open spec fn event_height(self, e: EventView) -> nat {
        match e {
            EventView::ParticipantCreated(p) => participant_height(self.participants[p as int]),
            EventView::MessageSent(m) => message_height(m),
            EventView::GroupStarted(g) => banner_height(self.groups[g as int].simple().config),
            EventView::GroupEnded => 0,
            EventView::AltElse(g) => banner_height(self.groups[g as int].simple().config),
            EventView::Note(n) => note_height(n),
            EventView::Separator(s) => separator_height(s),
        }
    }

    /// The horizontal room `e` asks for, if any.
    pub open spec fn event_reserved_width(self, e: EventView) -> Option<ReservedWidth> {
        match e {
            EventView::ParticipantCreated(p) => Some(
                spec_reserved(
                    (p + 1) as usize,
                    (p + 1) as usize,
                    participant_width(self.participants[p as int]) as u128,
                ),
            ),
            EventView::MessageSent(m) => Some(message_reserved_width(m)),
            EventView::Note(n) => {
                let w = (note_width(n) + 20) as u128;
                Some(
                    match n.orientation {
                        OrientationView::LeftOf(p) => spec_reserved(0, (p + 1) as usize, w),
                        OrientationView::RightOf(p) => spec_reserved(
                            (p + 1) as usize,
                            self.rightmost_col(),
                            w,
                        ),
                        OrientationView::Over(_) => spec_reserved(0, self.rightmost_col(), w),
                    },
                )
            },
            EventView::Separator(s) => Some(
                spec_reserved(0, self.rightmost_col(), (separator_width(s) + 10) as u128),
            ),
            _ => None,
        }
    }

    /// Height of a row: the largest height of its events, 0 for an empty row.
    pub open spec fn row_height(self, evs: Seq<EventView>) -> nat
        decreases evs.len(),
    {
        if evs.len() == 0 {
            0
        } else {
            let h = self.row_height(evs.drop_last());
            let e = self.event_height(evs.last());
            if h >= e {
                h
            } else {
                e
            }
        }
    }

    pub open spec fn row_heights(self) -> Seq<nat> {
        self.timeline.map_values(|evs: Seq<EventView>| self.row_height(evs))
    }

    /// The constraints the events of one row declare, in order.
    pub open spec fn row_reserved(self, evs: Seq<EventView>) -> Seq<ReservedWidth>
        decreases evs.len(),
    {
        if evs.len() == 0 {
            seq![]
        } else {
            self.row_reserved(evs.drop_last()) + match self.event_reserved_width(evs.last()) {
                Some(rw) => seq![rw],
                None => seq![],
            }
        }
    }

    pub open spec fn rows_reserved(self, rows: Seq<Seq<EventView>>) -> Seq<ReservedWidth>
        decreases rows.len(),
    {
        if rows.len() == 0 {
            seq![]
        } else {
            self.rows_reserved(rows.drop_last()) + self.row_reserved(rows.last())
        }
    }

    /// Every constraint declared on the timeline, row by row.
    pub open spec fn reserved_widths(self) -> Seq<ReservedWidth> {
        self.rows_reserved(self.timeline)
    }

    pub open spec fn participant_widths(self) -> Seq<nat> {
        self.participants.map_values(|p: ParticipantView| participant_width(p))
    }

    pub open spec fn find(self, name: Seq<char>) -> Option<usize> {
        first_named(self.participants, name)
    }

    /// The model after `p` joins as the next column.
    pub open spec fn with_participant(self, p: ParticipantView) -> DiagramView {
        let idx = self.participants.len() as usize;
        DiagramView {
            participants: self.participants.push(ParticipantView { idx, ..p }),
            timeline: self.timeline.update(
                0,
                self.timeline[0].push(EventView::ParticipantCreated(idx)),
            ),
            ..self
        }
    }

    /// A plain participant labelled with its name.
    pub open spec fn default_participant(self, name: Seq<char>) -> ParticipantView {
        ParticipantView {
            name,
            label: name,
            kind: ParticipantKind::Default,
            idx: 0,
            activations: seq![],
            config: self.config.participant_config,
        }
    }

    /// The model once a participant called `name` exists.
    pub open spec fn with_named(self, name: Seq<char>) -> DiagramView {
        match self.find(name) {
            Some(_) => self,
            None => self.with_participant(self.default_participant(name)),
        }
    }

    /// Index of the participant called `name` once it exists.
    pub open spec fn index_for(self, name: Seq<char>) -> usize {
        match self.find(name) {
            Some(i) => i,
            None => self.participants.len() as usize,
        }
    }

    /// The message `add_message` records.
    pub open spec fn message_for(
        self,
        from: Seq<char>,
        to: Seq<char>,
        label: Seq<char>,
        style: LineStyle,
    ) -> MessageView {
        MessageView {
            from: self.index_for(from),
            to: self.with_named(from).index_for(to),
            label,
            style,
        }
    }

    /// The model after a message: unknown participants are created, sender first,
    /// and the message takes a row of its own.
    pub open spec fn with_message(
        self,
        from: Seq<char>,
        to: Seq<char>,
        label: Seq<char>,
        style: LineStyle,
    ) -> DiagramView {
        let d = self.with_named(from).with_named(to);
        DiagramView {
            timeline: d.timeline.push(
                seq![EventView::MessageSent(self.message_for(from, to, label, style))],
            ),
            ..d
        }
    }

    /// The model after opening an activation of `name` (created if unknown).
    pub open spec fn activated(self, name: Seq<char>, start: Option<usize>) -> DiagramView {
        let d = self.with_named(name);
        let i = self.index_for(name) as int;
        DiagramView {
            participants: d.participants.update(
                i,
                ParticipantView {
                    activations: activated(d.participants[i].activations, start),
                    ..d.participants[i]
                },
            ),
            ..d
        }
    }

    /// The model after closing the latest open activation of `name` at the last row,
    /// or why that cannot be done.
    pub open spec fn deactivated(self, name: Seq<char>) -> Result<DiagramView, ErrorView> {
        match self.find(name) {
            None => Err(ErrorView::UnknownParticipant(name)),
            Some(i) => if open_count(self.participants[i as int].activations) == 0 {
                Err(ErrorView::NoOpenActivation(name))
            } else {
                Ok(
                    DiagramView {
                        participants: self.participants.update(
                            i as int,
                            ParticipantView {
                                activations: deactivated(
                                    self.participants[i as int].activations,
                                    (self.timeline.len() - 1) as usize,
                                ),
                                ..self.participants[i as int]
                            },
                        ),
                        ..self
                    },
                )
            },
        }
    }

    /// The model after group `g` starts on a row of its own.
    pub open spec fn with_group_started(self, g: GroupView) -> DiagramView {
        DiagramView {
            groups: self.groups.push(g),
            timeline: self.timeline.push(seq![EventView::GroupStarted(self.groups.len() as usize)]),
            ..self
        }
    }

    /// The model after group `g` ends; the end marker takes a row of its own.
    pub open spec fn with_group_ended(self, g: usize) -> DiagramView {
        DiagramView {
            groups: self.groups.update(g as int, self.groups[g as int].ended(self.timeline.len() as usize)),
            timeline: self.timeline.push(seq![EventView::GroupEnded]),
            ..self
        }
    }

    /// The model after a new case of alt group `g`, or why that cannot be done.
    pub open spec fn with_alt_case(self, g: usize, label: Seq<char>) -> Result<DiagramView, ErrorView> {
        match self.groups[g as int] {
            GroupView::Alt(a) => Ok(
                DiagramView {
                    groups: self.groups.update(
                        g as int,
                        GroupView::Alt(
                            AltGroupView {
                                cases: a.cases.push(
                                    CaseView { row: self.timeline.len() as usize, label },
                                ),
                                ..a
                            },
                        ),
                    ),
                    timeline: self.timeline.push(seq![EventView::AltElse(g)]),
                    ..self
                },
            ),
            GroupView::Simple(_) => Err(ErrorView::CaseOutsideAlt),
        }
    }

    /// The model after a note, on a new row or on the last one.
    pub open spec fn with_note(self, n: NoteView, new_row: bool) -> DiagramView {
        DiagramView {
            timeline: if new_row {
                self.timeline.push(seq![EventView::Note(n)])
            } else {
                self.timeline.update(
                    self.timeline.len() - 1,
                    self.timeline.last().push(EventView::Note(n)),
                )
            },
            ..self
        }
    }

    /// The model after a separator on a row of its own.
    pub open spec fn with_separator(self, s: SeparatorView) -> DiagramView {
        DiagramView { timeline: self.timeline.push(seq![EventView::Separator(s)]), ..self }
    }
}


/// A message never moves a participant: those that exist keep their place and column,
/// and any it creates join on the right, each at the next column, the sender first.
pub proof fn lemma_message_keeps_columns(
    d: DiagramView,
    from: Seq<char>,
    to: Seq<char>,
    label: Seq<char>,
    style: LineStyle,
)
    requires
        d.wf(),
    ensures
        d.with_message(from, to, label, style).participants.len() >= d.participants.len(),
        forall|i: int|
            0 <= i < d.participants.len() ==> #[trigger] d.with_message(from, to, label, style).participants[i]
                == d.participants[i],
        forall|i: int|
            0 <= i < d.with_message(from, to, label, style).participants.len() ==> (
            #[trigger] d.with_message(from, to, label, style).participants[i]).idx == i,
        d.find(from) is None ==> d.with_message(from, to, label, style).participants[d.participants.len() as int].name
            == from,
{
    let d1 = d.with_named(from);
    let d2 = d1.with_named(to);
    assert(forall|i: int| 0 <= i < d.participants.len() ==> #[trigger] d1.participants[i] == d.participants[i]);
    assert(forall|i: int| 0 <= i < d1.participants.len() ==> #[trigger] d2.participants[i] == d1.participants[i]);
    assert(forall|i: int| 0 <= i < d1.participants.len() ==> (#[trigger] d1.participants[i]).idx == i);
    assert(forall|i: int| 0 <= i < d2.participants.len() ==> (#[trigger] d2.participants[i]).idx == i);
}

/// A sequence diagram under construction: participants and groups in arenas addressed
/// by index, and the timeline of events that refer to them.
pub struct SequenceDiagram {
    participants: Vec<Participant>,
    groups: Vec<Group>,
    timeline: Vec<Vec<TimelineEvent>>,
    config: Config,
}

impl View for SequenceDiagram {
    type V = DiagramView;

    closed spec fn view(&self) -> DiagramView {
        DiagramView {
            participants: participants_view(self.participants@),
            groups: groups_view(self.groups@),
            timeline: timeline_view(self.timeline@),
            config: self.config,
        }
    }
}

impl SequenceDiagram {
    /// An empty diagram: no participants, no groups, and one empty row for participants.
    pub fn new(config: Config) -> (r: SequenceDiagram)
        ensures
            r@ == (DiagramView {
                participants: seq![],
                groups: seq![],
                timeline: seq![seq![]],
                config,
            }),
            r@.wf(),
    {
        let first: Vec<TimelineEvent> = Vec::new();
        let r = SequenceDiagram {
            participants: Vec::new(),
            groups: Vec::new(),
            timeline: vec![first],
            config,
        };
        assert(r@.participants =~= seq![]);
        assert(r@.groups =~= seq![]);
        assert(r@.timeline =~~= seq![seq![]]);
        r
    }

    pub fn get_config(&self) -> (r: &Config)
        ensures
            *r == self@.config,
    {
        &self.config
    }

    pub fn get_participants(&self) -> (r: &Vec<Participant>)
        ensures
            participants_view(r@) == self@.participants,
    {
        &self.participants
    }

    pub fn get_groups(&self) -> (r: &Vec<Group>)
        ensures
            groups_view(r@) == self@.groups,
    {
        &self.groups
    }

    pub fn get_timeline(&self) -> (r: &Vec<Vec<TimelineEvent>>)
        ensures
            timeline_view(r@) == self@.timeline,
    {
        &self.timeline
    }

    /// Index of the first participant called `id`, if any.
    pub fn find_participant_by_name(&self, id: &str) -> (r: Option<usize>)
        requires
            self@.wf(),
        ensures
            r == self@.find(id@),
    {
        let name = id.to_owned();
        let ghost ps = self@.participants;
        proof {
            lemma_first_named(ps, id@);
        }
        let mut i: usize = 0;
        while i < self.participants.len()
            invariant
                ps == participants_view(self.participants@),
                ps.len() <= usize::MAX,
                name@ == id@,
                first_named(ps, id@) == self@.find(id@),
                first_named(ps, id@) matches Some(k) ==> k < ps.len() && ps[k as int].name == id@
                    && forall|j: int| 0 <= j < k ==> (#[trigger] ps[j]).name != id@,
                first_named(ps, id@) is None ==> forall|j: int| 0 <= j < ps.len() ==> (#[trigger] ps[j]).name != id@,
                i <= ps.len(),
                forall|j: int| 0 <= j < i ==> (#[trigger] ps[j]).name != id@,
            decreases ps.len() - i,
        {
            assert(ps[i as int] == self.participants@[i as int]@);
            if self.participants[i].name == name {
                return Some(i);
            }
            i = i + 1;
        }
        None
    }

    /// Adds `participant` as the next column; returns its index.
    pub fn add_participant(&mut self, participant: Participant) -> (r: usize)
        requires
            old(self)@.wf(),
            old(self)@.participants.len() + 3 <= usize::MAX,
            activations_within(participant@.activations, old(self)@.timeline.len()),
        ensures
            r == old(self)@.participants.len(),
            final(self)@ == old(self)@.with_participant(participant@),
            final(self)@.wf(),
            final(self)@.participants.len() == old(self)@.participants.len() + 1,
            final(self)@.groups == old(self)@.groups,
            final(self)@.config == old(self)@.config,
    {
        let ghost before = self@;
        let mut participant = participant;
        let idx = self.participants.len();
        participant.idx = idx;
        self.timeline[0].push(TimelineEvent::ParticipantCreated(ParticipantCreated { participant: idx }));
        self.participants.push(participant);
        let ghost after = before.with_participant(participant@);
        assert(self@.participants =~= after.participants);
        assert(self@.timeline =~~= after.timeline);
        assert(self@ == after);
        proof {
            assert forall|r: int, k: int|
                0 <= r < after.timeline.len() && 0 <= k < after.timeline[r].len() implies after.event_ok(
                #[trigger] after.timeline[r][k]) by {
                if !(r == 0 && k == before.timeline[0].len()) {
                    assert(before.event_ok(before.timeline[r][k]));
                }
            }
        }
        idx
    }

    /// The participant called `name`, created as a plain one if unknown.
    fn get_or_create_participant(&mut self, name: &str) -> (r: usize)
        requires
            old(self)@.wf(),
            old(self)@.participants.len() + 3 <= usize::MAX,
        ensures
            r == old(self)@.index_for(name@),
            final(self)@ == old(self)@.with_named(name@),
            final(self)@.wf(),
            r < final(self)@.participants.len(),
            final(self)@.participants.len() <= old(self)@.participants.len() + 1,
            final(self)@.participants.len() >= old(self)@.participants.len(),
            final(self)@.groups == old(self)@.groups,
            final(self)@.config == old(self)@.config,
    {
        proof {
            lemma_first_named(self@.participants, name@);
        }
        match self.find_participant_by_name(name) {
            Some(i) => i,
            None => {
                let p = Participant::new(name.to_owned(), ParticipantKind::Default, self.config.participant_config);
                assert(p@ == self@.default_participant(name@)) by {
                    assert(p@.activations =~= seq![]);
                }
                self.add_participant(p)
            },
        }
    }

    /// Records a message from `from` to `to` on a row of its own, creating unknown
    /// participants (sender first); returns the message.
    pub fn add_message(&mut self, from: &str, to: &str, label: String, style: LineStyle) -> (r: Message)
        requires
            old(self)@.wf(),
            old(self)@.participants.len() + 4 <= usize::MAX,
        ensures
            r@ == old(self)@.message_for(from@, to@, label@, style),
            final(self)@ == old(self)@.with_message(from@, to@, label@, style),
            final(self)@.wf(),
            final(self)@.participants.len() <= old(self)@.participants.len() + 2,
            final(self)@.participants.len() >= old(self)@.participants.len(),
            final(self)@.groups == old(self)@.groups,
            final(self)@.config == old(self)@.config,
            r.from < final(self)@.participants.len(),
            r.to < final(self)@.participants.len(),
    {
        let ghost before = self@;
        let from_idx = self.get_or_create_participant(from);
        let to_idx = self.get_or_create_participant(to);
        let message = Message { from: from_idx, to: to_idx, label: label.clone(), style };
        let recorded = Message { from: from_idx, to: to_idx, label, style };
        let ghost mid = self@;
        self.timeline.push(vec![TimelineEvent::MessageSent(MessageSent { message: recorded })]);
        let ghost after = before.with_message(from@, to@, label@, style);
        assert(self@.timeline =~~= after.timeline);
        assert(self@ == after);
        proof {
            assert forall|r: int, k: int|
                0 <= r < after.timeline.len() && 0 <= k < after.timeline[r].len() implies after.event_ok(
                #[trigger] after.timeline[r][k]) by {
                if r < mid.timeline.len() {
                    assert(mid.event_ok(mid.timeline[r][k]));
                }
            }
        }
        message
    }

    /// Opens an activation of `name` (created if unknown) that starts at `start`.
    pub fn activate(&mut self, participant_name: &str, start: Option<usize>)
        requires
            old(self)@.wf(),
            start matches Some(s) ==> s < old(self)@.timeline.len(),
            old(self)@.participants.len() + 3 <= usize::MAX,
        ensures
            final(self)@ == old(self)@.activated(participant_name@, start),
            final(self)@.wf(),
            final(self)@.participants.len() <= old(self)@.participants.len() + 1,
            final(self)@.participants.len() >= old(self)@.participants.len(),
            final(self)@.groups == old(self)@.groups,
            final(self)@.config == old(self)@.config,
    {
        let ghost before = self@;
        let idx = self.get_or_create_participant(participant_name);
        let ghost mid = self@;
        self.participants[idx].activate(start);
        let ghost after = before.activated(participant_name@, start);
        assert(self@.participants =~= after.participants);
        assert(self@ == after);
    }

    /// Closes the most recently opened activation of `name` that is still open, at the
    /// last row. Fails, changing nothing, if no participant is called `name` or none of
    /// its activations is open.
    pub fn deactivate(&mut self, participant_name: &str) -> (r: Result<(), Error>)
        requires
            old(self)@.wf(),
        ensures
            match old(self)@.deactivated(participant_name@) {
                Ok(d) => r is Ok && final(self)@ == d,
                Err(e) => r matches Err(x) && x@ == e && final(self)@ == old(self)@,
            },
            final(self)@.wf(),
            final(self)@.participants.len() == old(self)@.participants.len(),
            final(self)@.groups == old(self)@.groups,
            final(self)@.config == old(self)@.config,
    {
        let ghost before = self@;
        proof {
            lemma_first_named(before.participants, participant_name@);
        }
        match self.find_participant_by_name(participant_name) {
            Some(i) => {
                let row = self.timeline.len() - 1;
                let closed = self.participants[i].deactivate(row);
                proof {
                    crate::participant::lemma_last_open(before.participants[i as int].activations);
                }
                if !closed {
                    assert(self@.participants =~= before.participants);
                    return Err(Error::NoOpenActivation(participant_name.to_owned()));
                }
                proof {
                    let after = before.deactivated(participant_name@)->Ok_0;
                    assert(self@.participants =~= after.participants);
                }
                Ok(())
            },
            None => Err(Error::UnknownParticipant(participant_name.to_owned())),
        }
    }

    /// Starts `group` on a row of its own; returns its index.
    pub fn start_group(&mut self, group: Group) -> (r: usize)
        requires
            old(self)@.wf(),
            group@.simple().start == group@.simple().end == old(self)@.timeline.len(),
            cases_within(group@, old(self)@.timeline.len()),
        ensures
            r == old(self)@.groups.len(),
            final(self)@ == old(self)@.with_group_started(group@),
            final(self)@.wf(),
    {
        let ghost before = self@;
        let idx = self.groups.len();
        self.groups.push(group);
        self.timeline.push(vec![TimelineEvent::GroupStarted(GroupStarted { group: idx })]);
        let ghost after = before.with_group_started(group@);
        assert(self@.groups =~= after.groups);
        assert(self@.timeline =~~= after.timeline);
        assert(self@ == after);
        proof {
            assert forall|r: int, k: int|
                0 <= r < after.timeline.len() && 0 <= k < after.timeline[r].len() implies after.event_ok(
                #[trigger] after.timeline[r][k]) by {
                if r < before.timeline.len() {
                    assert(before.event_ok(before.timeline[r][k]));
                }
            }
        }
        idx
    }

    /// Ends group `group` at the next row, which holds the end marker.
    pub fn end_group(&mut self, group: usize)
        requires
            old(self)@.wf(),
            group < old(self)@.groups.len(),
            is_open(old(self)@.groups[group as int]),
        ensures
            final(self)@ == old(self)@.with_group_ended(group),
            final(self)@.wf(),
    {
        let ghost before = self@;
        let row = self.timeline.len();
        self.groups[group].end(row);
        self.timeline.push(vec![TimelineEvent::GroupEnded(GroupEnded {})]);
        let ghost after = before.with_group_ended(group);
        assert(self@.groups =~= after.groups);
        assert(self@.timeline =~~= after.timeline);
        assert(self@ == after);
        proof {
            assert forall|r: int, k: int|
                0 <= r < after.timeline.len() && 0 <= k < after.timeline[r].len() implies after.event_ok(
                #[trigger] after.timeline[r][k]) by {
                if r < before.timeline.len() {
                    assert(before.event_ok(before.timeline[r][k]));
                }
            }
        }
    }

    /// Starts the next case of alt group `group` on a row of its own. Fails, changing
    /// nothing, if the group is not an alt group.
    pub fn add_alt_case(&mut self, group: usize, label: String) -> (r: Result<(), Error>)
        requires
            old(self)@.wf(),
            group < old(self)@.groups.len(),
            is_open(old(self)@.groups[group as int]),
        ensures
            match old(self)@.with_alt_case(group, label@) {
                Ok(d) => r is Ok && final(self)@ == d,
                Err(e) => r matches Err(x) && x@ == e && final(self)@ == old(self)@,
            },
            final(self)@.wf(),
    {
        let ghost before = self@;
        let row = self.timeline.len();
        if !self.groups[group].add_case(label, row) {
            assert(self@.groups =~= before.groups);
            return Err(Error::CaseOutsideAlt);
        }
        self.timeline.push(vec![TimelineEvent::AltElse(AltElse { group })]);
        let ghost after = before.with_alt_case(group, label@)->Ok_0;
        assert(self@.groups =~= after.groups);
        assert(self@.timeline =~~= after.timeline);
        assert(self@ == after);
        proof {
            assert forall|r: int, k: int|
                0 <= r < after.timeline.len() && 0 <= k < after.timeline[r].len() implies after.event_ok(
                #[trigger] after.timeline[r][k]) by {
                if r < before.timeline.len() {
                    assert(before.event_ok(before.timeline[r][k]));
                }
            }
        }
        Ok(())
    }

    /// Adds a note, on a row of its own or beside the events of the last row.
    pub fn add_note(&mut self, label: String, orientation: NoteOrientation, new_row: bool)
        requires
            old(self)@.wf(),
            old(self)@.event_ok(
                EventView::Note(
                    NoteView {
                        orientation: orientation@,
                        label: label@,
                        config: old(self)@.config.note_config,
                    },
                ),
            ),
        ensures
            final(self)@ == old(self)@.with_note(
                NoteView { orientation: orientation@, label: label@, config: old(self)@.config.note_config },
                new_row,
            ),
            final(self)@.wf(),
    {
        let ghost before = self@;
        let note = Note { label, orientation, config: self.config.note_config };
        let ghost nv = note@;
        if new_row {
            self.timeline.push(vec![TimelineEvent::Note(note)]);
        } else {
            let last = self.timeline.len() - 1;
            self.timeline[last].push(TimelineEvent::Note(note));
        }
        let ghost after = before.with_note(nv, new_row);
        assert(self@.timeline =~~= after.timeline);
        assert(self@ == after);
        proof {
            assert forall|r: int, k: int|
                0 <= r < after.timeline.len() && 0 <= k < after.timeline[r].len() implies after.event_ok(
                #[trigger] after.timeline[r][k]) by {
                if r < before.timeline.len() && k < before.timeline[r].len() {
                    assert(before.event_ok(before.timeline[r][k]));
                }
            }
        }
    }

    /// Adds a separator labelled `label` on a row of its own.
    pub fn add_separator(&mut self, label: String)
        requires
            old(self)@.wf(),
        ensures
            final(self)@ == old(self)@.with_separator(
                SeparatorView { label: label@, config: old(self)@.config.separator_config },
            ),
            final(self)@.wf(),
    {
        let ghost before = self@;
        let separator = Separator::new(label, self.config.separator_config);
        let ghost sv = separator@;
        self.timeline.push(vec![TimelineEvent::Separator(separator)]);
        let ghost after = before.with_separator(sv);
        assert(self@.timeline =~~= after.timeline);
        assert(self@ == after);
        proof {
            assert forall|r: int, k: int|
                0 <= r < after.timeline.len() && 0 <= k < after.timeline[r].len() implies after.event_ok(
                #[trigger] after.timeline[r][k]) by {
                if r < before.timeline.len() {
                    assert(before.event_ok(before.timeline[r][k]));
                }
            }
        }
    }
}


impl SequenceDiagram {
    /// Index of the rightmost column boundary.
    pub fn rightmost_col(&self) -> (r: usize)
        requires
            self@.wf(),
        ensures
            r == self@.rightmost_col(),
    {
        if self.participants.len() == 0 {
            0
        } else {
            self.participants.len() + 1
        }
    }
}

impl ParticipantCreated {
    pub fn height(&self, d: &SequenceDiagram) -> (r: u128)
        requires
            d@.wf(),
            self.participant < d@.participants.len(),
        ensures
            r == participant_height(d@.participants[self.participant as int]),
    {
        let ps = d.get_participants();
        ps[self.participant].height()
    }

    /// The participant's box and free space, against its own column.
    pub fn reserved_width(&self, d: &SequenceDiagram) -> (r: Option<ReservedWidth>)
        requires
            d@.wf(),
            self.participant < d@.participants.len(),
        ensures
            r == d@.event_reserved_width(EventView::ParticipantCreated(self.participant)),
    {
        let ps = d.get_participants();
        let col = self.participant + 1;
        Some(ReservedWidth::new(col, col, crate::participant::get_participant_width(&ps[self.participant])))
    }

    pub fn col_range(&self) -> (r: Option<(usize, usize)>)
        ensures
            r == Some((self.participant, self.participant)),
    {
        Some((self.participant, self.participant))
    }
}

impl MessageSent {
    /// The label's width plus a margin between the two columns; a message to its own
    /// sender reserves it against the next column.
    pub fn reserved_width(&self) -> (r: Option<ReservedWidth>)
        requires
            self.message.from + 1 <= usize::MAX,
            self.message.to + 2 <= usize::MAX,
        ensures
            r == Some(message_reserved_width(self.message@)),
    {
        let from_idx = self.message.from;
        let mut to_idx = self.message.to;
        if from_idx == to_idx {
            to_idx = to_idx + 1;
        }
        let width = crate::layout::string_width(self.message.label.as_str(), MESSAGE_FONT_SIZE) + 40;
        Some(ReservedWidth::new(from_idx + 1, to_idx + 1, width))
    }
}

impl GroupStarted {
    pub fn height(&self, d: &SequenceDiagram) -> (r: u128)
        requires
            d@.wf(),
            self.group < d@.groups.len(),
        ensures
            r == banner_height(d@.groups[self.group as int].simple().config),
    {
        let gs = d.get_groups();
        gs[self.group].config().font_size as u128 * 5 / 4
    }
}

impl AltElse {
    pub fn height(&self, d: &SequenceDiagram) -> (r: u128)
        requires
            d@.wf(),
            self.group < d@.groups.len(),
        ensures
            r == banner_height(d@.groups[self.group as int].simple().config),
    {
        let gs = d.get_groups();
        gs[self.group].config().font_size as u128 * 5 / 4
    }
}

impl Note {
    /// Conservative room for the note: from the left edge through the column right of
    /// its participant, from that column through the right edge, or the full width.
    pub fn reserved_width(&self, d: &SequenceDiagram) -> (r: Option<ReservedWidth>)
        requires
            d@.wf(),
            d@.event_ok(EventView::Note(self@)),
        ensures
            r == d@.event_reserved_width(EventView::Note(self@)),
    {
        let width = self.width() + 2 * crate::note::PARTICIPANT_MARGIN as u128;
        let rightmost = d.rightmost_col();
        Some(
            match &self.orientation {
                NoteOrientation::LeftOf(p) => ReservedWidth::new(0, *p + 1, width),
                NoteOrientation::RightOf(p) => ReservedWidth::new(*p + 1, rightmost, width),
                NoteOrientation::Over(_) => ReservedWidth::new(0, rightmost, width),
            },
        )
    }
}

impl Separator {
    /// The label box plus a margin, across the full width.
    pub fn reserved_width(&self, d: &SequenceDiagram) -> (r: Option<ReservedWidth>)
        requires
            d@.wf(),
        ensures
            r == d@.event_reserved_width(EventView::Separator(self@)),
    {
        Some(ReservedWidth::new(0, d.rightmost_col(), self.width() + 10))
    }
}

impl TimelineEvent {
    /// Minimum height of the row holding this event.
    pub fn height(&self, d: &SequenceDiagram) -> (r: u128)
        requires
            d@.wf(),
            d@.event_ok(self@),
        ensures
            r == d@.event_height(self@),
            r < 0x1_0000_0000_0000_0000_0000_0000_0u128,
    {
        match self {
            TimelineEvent::ParticipantCreated(e) => e.height(d),
            TimelineEvent::MessageSent(e) => e.height(),
            TimelineEvent::GroupStarted(e) => e.height(d),
            TimelineEvent::GroupEnded(_) => 0,
            TimelineEvent::AltElse(e) => e.height(d),
            TimelineEvent::Note(n) => n.height(),
            TimelineEvent::Separator(s) => s.height(),
        }
    }

    /// The horizontal room this event asks for, if any.
    pub fn reserved_width(&self, d: &SequenceDiagram) -> (r: Option<ReservedWidth>)
        requires
            d@.wf(),
            d@.event_ok(self@),
        ensures
            r == d@.event_reserved_width(self@),
    {
        match self {
            TimelineEvent::ParticipantCreated(e) => e.reserved_width(d),
            TimelineEvent::MessageSent(e) => e.reserved_width(),
            TimelineEvent::Note(n) => n.reserved_width(d),
            TimelineEvent::Separator(s) => s.reserved_width(d),
            _ => None,
        }
    }

    /// The participant columns this event touches, leftmost first, if any.
    pub fn col_range(&self) -> (r: Option<(usize, usize)>)
        ensures
            r == col_range_of(self@),
    {
        match self {
            TimelineEvent::ParticipantCreated(e) => e.col_range(),
            TimelineEvent::MessageSent(e) => e.col_range(),
            _ => None,
        }
    }
}

} // verus!
