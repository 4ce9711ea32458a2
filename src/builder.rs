use vstd::prelude::*;

use crate::config::Config;
use crate::diagram::{DiagramView, SequenceDiagram};
use crate::error::{Error, ErrorView};
use crate::group::{alt_label, AltGroup, AltGroupView, Group, GroupView, SimpleGroup, SimpleGroupView};
use crate::message::{LineStyle, Message, MessageView};
use crate::note::{NoteOrientation, NoteView, OrientationView};
use crate::layout::{diagram_cols, diagram_rows};
use crate::participant::{open_count, Participant, ParticipantKind, ParticipantView};

verus! {

/// Activation change that rides on a message: open one on the receiver, or close the
/// sender's latest.
#[derive(Clone, Copy, Debug, PartialEq, Eq, Structural)]
pub enum ActivationModifier {
    Activate,
    Deactivate,
}

#[derive(Clone, Copy, Debug, PartialEq, Eq, Structural)]
pub enum GroupKind {
    Simple,
    Alt,
}

/// Where a note goes: left or right of the last message, or over named participants.
#[derive(Clone, Debug)]
pub enum Direction {
    Left,
    Right,
    Over(Vec<String>),
}

pub ghost enum DirectionView {
    Left,
    Right,
    Over(Seq<Seq<char>>),
}

impl View for Direction {
    type V = DirectionView;

    open spec fn view(&self) -> DirectionView {
        match self {
            Direction::Left => DirectionView::Left,
            Direction::Right => DirectionView::Right,
            Direction::Over(names) => DirectionView::Over(names@.map_values(|n: String| n@)),
        }
    }
}

/// One statement of a diagram's source, in the order written.
#[derive(Clone, Debug)]
pub enum Statement {
    ParticipantDefinition { name: String, label: String, kind: ParticipantKind },
    Message {
        from: String,
        to: String,
        label: String,
        style: LineStyle,
        activation_modifier: Option<ActivationModifier>,
    },
    /// A group of the given kind with a header text.
    GroupStart(GroupKind, String),
    /// The next case of the innermost open alt group, with its label.
    AltElse(String),
    GroupEnd,
    Activate(String),
    Deactivate(String),
    Note { label: String, direction: Direction },
    Separator(String),
}

pub ghost enum StatementView {
    ParticipantDefinition { name: Seq<char>, label: Seq<char>, kind: ParticipantKind },
    Message {
        from: Seq<char>,
        to: Seq<char>,
        label: Seq<char>,
        style: LineStyle,
        activation_modifier: Option<ActivationModifier>,
    },
    GroupStart(GroupKind, Seq<char>),
    AltElse(Seq<char>),
    GroupEnd,
    Activate(Seq<char>),
    Deactivate(Seq<char>),
    Note { label: Seq<char>, direction: DirectionView },
    Separator(Seq<char>),
}

impl View for Statement {
    type V = StatementView;

    open spec fn view(&self) -> StatementView {
        match self {
            Statement::ParticipantDefinition { name, label, kind } => StatementView::ParticipantDefinition {
                name: name@,
                label: label@,
                kind: *kind,
            },
            Statement::Message { from, to, label, style, activation_modifier } => StatementView::Message {
                from: from@,
                to: to@,
                label: label@,
                style: *style,
                activation_modifier: *activation_modifier,
            },
            Statement::GroupStart(k, h) => StatementView::GroupStart(*k, h@),
            Statement::AltElse(l) => StatementView::AltElse(l@),
            Statement::GroupEnd => StatementView::GroupEnd,
            Statement::Activate(n) => StatementView::Activate(n@),
            Statement::Deactivate(n) => StatementView::Deactivate(n@),
            Statement::Note { label, direction } => StatementView::Note {
                label: label@,
                direction: direction@,
            },
            Statement::Separator(l) => StatementView::Separator(l@),
        }
    }
}

/// What building has produced so far: the diagram, the open groups (innermost last),
/// and the row and content of the last message.
pub ghost struct BuildState {
    pub diagram: DiagramView,
    pub active: Seq<usize>,
    pub last_message: Option<(usize, MessageView)>,
}

/// Indices of the participants called `names`, or the first name no participant has.
pub open spec fn lookup_all(d: DiagramView, names: Seq<Seq<char>>) -> Result<Seq<usize>, Seq<char>>
    decreases names.len(),
{
    if names.len() == 0 {
        Ok(seq![])
    } else {
        match lookup_all(d, names.drop_last()) {
            Ok(ps) => match d.find(names.last()) {
                Some(i) => Ok(ps.push(i)),
                None => Err(names.last()),
            },
            Err(n) => Err(n),
        }
    }
}

/// The group a statement starting at row `pos` opens.
pub open spec fn new_group(kind: GroupKind, header: Seq<char>, pos: usize, d: DiagramView) -> GroupView {
    match kind {
        GroupKind::Simple => GroupView::Simple(
            SimpleGroupView { start: pos, end: pos, label: header, header: seq![], config: d.config.group_config },
        ),
        GroupKind::Alt => GroupView::Alt(
            AltGroupView {
                group: SimpleGroupView {
                    start: pos,
                    end: pos,
                    label: alt_label(),
                    header,
                    config: d.config.group_config,
                },
                cases: seq![],
            },
        ),
    }
}

/// Where a note left or right of message `m` stands: beside its leftmost or rightmost
/// participant.
pub open spec fn side_of(m: MessageView, left: bool) -> OrientationView {
    if left {
        if m.from < m.to {
            OrientationView::LeftOf(m.from)
        } else {
            OrientationView::LeftOf(m.to)
        }
    } else if m.from < m.to {
        OrientationView::RightOf(m.to)
    } else {
        OrientationView::RightOf(m.from)
    }
}

/// The effect of one statement, or the error it stops on.
pub open spec fn step(st: BuildState, s: StatementView) -> Result<BuildState, ErrorView> {
    let d = st.diagram;
    match s {
        StatementView::ParticipantDefinition { name, label, kind } => Ok(
            BuildState {
                diagram: d.with_participant(
                    ParticipantView {
                        name,
                        label,
                        kind,
                        idx: 0,
                        activations: seq![],
                        config: d.config.participant_config,
                    },
                ),
                ..st
            },
        ),
        StatementView::Message { from, to, label, style, activation_modifier } => {
            let row = d.timeline.len() as usize;
            let d1 = d.with_message(from, to, label, style);
            let st1 = BuildState {
                diagram: d1,
                last_message: Some((row, d.message_for(from, to, label, style))),
                ..st
            };
            match activation_modifier {
                None => Ok(st1),
                Some(ActivationModifier::Activate) => Ok(
                    BuildState { diagram: d1.activated(to, Some(row)), ..st1 },
                ),
                Some(ActivationModifier::Deactivate) => match d1.deactivated(from) {
                    Ok(d2) => Ok(BuildState { diagram: d2, ..st1 }),
                    Err(e) => Err(e),
                },
            }
        },
        StatementView::GroupStart(kind, header) => Ok(
            BuildState {
                diagram: d.with_group_started(new_group(kind, header, d.timeline.len() as usize, d)),
                active: st.active.push(d.groups.len() as usize),
                ..st
            },
        ),
        StatementView::AltElse(label) => if st.active.len() == 0 {
            Err(ErrorView::CaseWithoutGroup)
        } else {
            match d.with_alt_case(st.active.last(), label) {
                Ok(d1) => Ok(BuildState { diagram: d1, ..st }),
                Err(e) => Err(e),
            }
        },
        StatementView::GroupEnd => if st.active.len() == 0 {
            Err(ErrorView::EndWithoutGroup)
        } else {
            Ok(
                BuildState {
                    diagram: d.with_group_ended(st.active.last()),
                    active: st.active.drop_last(),
                    ..st
                },
            )
        },
        StatementView::Activate(name) => Ok(
            BuildState {
                diagram: d.activated(
                    name,
                    match st.last_message {
                        Some(lm) => Some(lm.0),
                        None => None,
                    },
                ),
                ..st
            },
        ),
        StatementView::Deactivate(name) => match d.deactivated(name) {
            Ok(d1) => Ok(BuildState { diagram: d1, ..st }),
            Err(e) => Err(e),
        },
        StatementView::Note { label, direction } => match direction {
            DirectionView::Over(names) => match lookup_all(d, names) {
                Ok(ps) => Ok(
                    BuildState {
                        diagram: d.with_note(
                            NoteView {
                                orientation: OrientationView::Over(ps),
                                label,
                                config: d.config.note_config,
                            },
                            true,
                        ),
                        ..st
                    },
                ),
                Err(name) => Err(ErrorView::UnknownNoteParticipant(name)),
            },
            _ => match st.last_message {
                Some(lm) => Ok(
                    BuildState {
                        diagram: d.with_note(
                            NoteView {
                                orientation: side_of(lm.1, direction is Left),
                                label,
                                config: d.config.note_config,
                            },
                            false,
                        ),
                        ..st
                    },
                ),
                None => Err(ErrorView::NoteBeforeMessage),
            },
        },
        StatementView::Separator(label) => Ok(
            BuildState {
                diagram: d.with_separator(
                    crate::separator::SeparatorView { label, config: d.config.separator_config },
                ),
                ..st
            },
        ),
    }
}

/// The state after the statements, in order, or the first error.
pub open spec fn run(init: BuildState, stmts: Seq<StatementView>) -> Result<BuildState, ErrorView>
    decreases stmts.len(),
{
    if stmts.len() == 0 {
        Ok(init)
    } else {
        match run(init, stmts.drop_last()) {
            Ok(st) => step(st, stmts.last()),
            Err(e) => Err(e),
        }
    }
}

pub open spec fn empty_diagram(config: Config) -> DiagramView {
    DiagramView { participants: seq![], groups: seq![], timeline: seq![seq![]], config }
}

/// The diagram the statements build, or the first error; a group still open at the end
/// is an error.
pub open spec fn build(stmts: Seq<StatementView>, config: Config) -> Result<DiagramView, ErrorView> {
    match run(BuildState { diagram: empty_diagram(config), active: seq![], last_message: None }, stmts) {
        Ok(st) => if st.active.len() == 0 {
            Ok(st.diagram)
        } else {
            Err(ErrorView::UnclosedGroup)
        },
        Err(e) => Err(e),
    }
}


pub open spec fn statements_view(stmts: Seq<Statement>) -> Seq<StatementView> {
    stmts.map_values(|s: Statement| s@)
}

pub open spec fn last_message_view(lm: Option<(usize, Message)>) -> Option<(usize, MessageView)> {
    match lm {
        Some(p) => Some((p.0, p.1@)),
        None => None,
    }
}

/// Once building has failed, more statements do not change the error.
pub proof fn lemma_run_err_prefix(init: BuildState, stmts: Seq<StatementView>, k: int, e: ErrorView)
    requires
        0 <= k <= stmts.len(),
        run(init, stmts.take(k)) == Err::<BuildState, ErrorView>(e),
    ensures
        run(init, stmts) == Err::<BuildState, ErrorView>(e),
    decreases stmts.len() - k,
{
    if k == stmts.len() {
        assert(stmts.take(k) =~= stmts);
    } else {
        assert(stmts.drop_last().take(k) =~= stmts.take(k));
        lemma_run_err_prefix(init, stmts.drop_last(), k, e);
    }
}

/// Once one name is unknown, the lookup of a longer list fails on it too.
pub proof fn lemma_lookup_prefix_err(d: DiagramView, names: Seq<Seq<char>>, k: int, n: Seq<char>)
    requires
        0 <= k <= names.len(),
        lookup_all(d, names.take(k)) == Err::<Seq<usize>, Seq<char>>(n),
    ensures
        lookup_all(d, names) == Err::<Seq<usize>, Seq<char>>(n),
    decreases names.len() - k,
{
    if k == names.len() {
        assert(names.take(k) =~= names);
    } else {
        assert(names.drop_last().take(k) =~= names.take(k));
        lemma_lookup_prefix_err(d, names.drop_last(), k, n);
    }
}

/// The participants a successful lookup finds exist.
pub proof fn lemma_lookup_all_valid(d: DiagramView, names: Seq<Seq<char>>)
    requires
        d.participants.len() <= usize::MAX,
    ensures
        lookup_all(d, names) matches Ok(ps) ==> forall|i: int|
            0 <= i < ps.len() ==> #[trigger] ps[i] < d.participants.len(),
    decreases names.len(),
{
    if names.len() > 0 {
        lemma_lookup_all_valid(d, names.drop_last());
        crate::diagram::lemma_first_named(d.participants, names.last());
    }
}

/// Indices of the participants called `names`, or the error for the first unknown one.
fn lookup_participants(d: &SequenceDiagram, names: &Vec<String>) -> (r: Result<Vec<usize>, Error>)
    requires
        d@.wf(),
    ensures
        match lookup_all(d@, names@.map_values(|n: String| n@)) {
            Ok(ps) => r matches Ok(v) && v@ == ps,
            Err(n) => r matches Err(x) && x@ == ErrorView::UnknownNoteParticipant(n),
        },
{
    let ghost ns = names@.map_values(|n: String| n@);
    let mut ps: Vec<usize> = Vec::new();
    let mut j: usize = 0;
    while j < names.len()
        invariant
            d@.wf(),
            ns == names@.map_values(|n: String| n@),
            j <= names@.len(),
            lookup_all(d@, ns.take(j as int)) == Ok::<Seq<usize>, Seq<char>>(ps@),
        decreases names@.len() - j,
    {
        assert(ns.take(j as int + 1).drop_last() =~= ns.take(j as int));
        assert(ns.take(j as int + 1).last() == names@[j as int]@);
        match d.find_participant_by_name(names[j].as_str()) {
            Some(i) => {
                ps.push(i);
            },
            None => {
                proof {
                    lemma_lookup_prefix_err(d@, ns, j as int + 1, names@[j as int]@);
                }
                return Err(Error::UnknownNoteParticipant(names[j].clone()));
            },
        }
        j = j + 1;
    }
    assert(ns.take(j as int) =~= ns);
    Ok(ps)
}

/// Whether the construction state is consistent: the diagram is well formed, the open
/// groups exist, and so do the participants of the last message.
pub open spec fn state_ok(d: DiagramView, active: Seq<usize>, lm: Option<(usize, MessageView)>) -> bool {
    &&& d.wf()
    &&& forall|j: int| 0 <= j < active.len() ==> #[trigger] active[j] < d.groups.len()
    &&& forall|j: int| 0 <= j < active.len() ==> crate::diagram::is_open(d.groups[#[trigger] active[j] as int])
    &&& forall|i: int, j: int| 0 <= i < j < active.len() ==> active[i] < active[j]
    &&& lm matches Some(p) ==> p.1.from < d.participants.len() && p.1.to < d.participants.len()
        && p.0 < d.timeline.len()
}

/// Applies a message statement.
fn apply_message(
    diagram: &mut SequenceDiagram,
    last_message: &mut Option<(usize, Message)>,
    from: &String,
    to: &String,
    label: &String,
    style: LineStyle,
    activation_modifier: Option<ActivationModifier>,
    active: Ghost<Seq<usize>>,
) -> (r: Result<(), Error>)
    requires
        state_ok(old(diagram)@, active@, last_message_view(*old(last_message))),
        old(diagram)@.participants.len() + 8 <= usize::MAX,
    ensures
        match step(
            BuildState { diagram: old(diagram)@, active: active@, last_message: last_message_view(*old(last_message)) },
            StatementView::Message { from: from@, to: to@, label: label@, style, activation_modifier },
        ) {
            Ok(st) => r is Ok && st == (BuildState {
                diagram: final(diagram)@,
                active: active@,
                last_message: last_message_view(*final(last_message)),
            }),
            Err(e) => r matches Err(x) && x@ == e,
        },
        r is Ok ==> state_ok(final(diagram)@, active@, last_message_view(*final(last_message))),
        final(diagram)@.participants.len() <= old(diagram)@.participants.len() + 3,
        final(diagram)@.config == old(diagram)@.config,
{
    let row = diagram.get_timeline().len();
    let ghost d0 = diagram@;
    proof {
        crate::diagram::lemma_first_named(d0.participants, from@);
        crate::diagram::lemma_first_named(d0.with_named(from@).participants, to@);
    }
    let msg = diagram.add_message(from.as_str(), to.as_str(), label.clone(), style);
    match activation_modifier {
        Some(ActivationModifier::Activate) => {
            diagram.activate(to.as_str(), Some(row));
        },
        Some(ActivationModifier::Deactivate) => {
            match diagram.deactivate(from.as_str()) {
                Ok(()) => {},
                Err(e) => {
                    return Err(e);
                },
            }
        },
        None => {},
    }
    *last_message = Some((row, msg));
    Ok(())
}

/// Applies a note statement.
fn apply_note(
    diagram: &mut SequenceDiagram,
    last_message: &Option<(usize, Message)>,
    label: &String,
    direction: &Direction,
    active: Ghost<Seq<usize>>,
) -> (r: Result<(), Error>)
    requires
        state_ok(old(diagram)@, active@, last_message_view(*last_message)),
    ensures
        match step(
            BuildState { diagram: old(diagram)@, active: active@, last_message: last_message_view(*last_message) },
            StatementView::Note { label: label@, direction: direction@ },
        ) {
            Ok(st) => r is Ok && st == (BuildState {
                diagram: final(diagram)@,
                active: active@,
                last_message: last_message_view(*last_message),
            }),
            Err(e) => r matches Err(x) && x@ == e,
        },
        r is Ok ==> state_ok(final(diagram)@, active@, last_message_view(*last_message)),
        final(diagram)@.participants == old(diagram)@.participants,
        final(diagram)@.config == old(diagram)@.config,
{
    match direction {
        Direction::Over(names) => {
            proof {
                lemma_lookup_all_valid(diagram@, names@.map_values(|n: String| n@));
            }
            match lookup_participants(diagram, names) {
                Ok(ps) => {
                    diagram.add_note(label.clone(), NoteOrientation::Over(ps), true);
                    Ok(())
                },
                Err(e) => Err(e),
            }
        },
        _ => {
            let is_left = match direction {
                Direction::Left => true,
                _ => false,
            };
            match last_message {
                Some(lm) => {
                    let m = &lm.1;
                    let orientation = if is_left {
                        if m.from < m.to {
                            NoteOrientation::LeftOf(m.from)
                        } else {
                            NoteOrientation::LeftOf(m.to)
                        }
                    } else if m.from < m.to {
                        NoteOrientation::RightOf(m.to)
                    } else {
                        NoteOrientation::RightOf(m.from)
                    };
                    diagram.add_note(label.clone(), orientation, false);
                    Ok(())
                },
                None => Err(Error::NoteBeforeMessage),
            }
        },
    }
}

/// Applies one statement to the construction state.
fn apply_statement(
    diagram: &mut SequenceDiagram,
    active: &mut Vec<usize>,
    last_message: &mut Option<(usize, Message)>,
    statement: &Statement,
) -> (r: Result<(), Error>)
    requires
        state_ok(old(diagram)@, old(active)@, last_message_view(*old(last_message))),
        old(diagram)@.participants.len() + 8 <= usize::MAX,
    ensures
        match step(
            BuildState {
                diagram: old(diagram)@,
                active: old(active)@,
                last_message: last_message_view(*old(last_message)),
            },
            statement@,
        ) {
            Ok(st) => r is Ok && st == (BuildState {
                diagram: final(diagram)@,
                active: final(active)@,
                last_message: last_message_view(*final(last_message)),
            }),
            Err(e) => r matches Err(x) && x@ == e,
        },
        r is Ok ==> state_ok(final(diagram)@, final(active)@, last_message_view(*final(last_message))),
        final(diagram)@.participants.len() <= old(diagram)@.participants.len() + 3,
        final(diagram)@.config == old(diagram)@.config,
{
    let ghost st = BuildState {
        diagram: diagram@,
        active: active@,
        last_message: last_message_view(*last_message),
    };
    match statement {
        Statement::ParticipantDefinition { name, label, kind } => {
            let p = Participant::with_label(
                name.clone(),
                *kind,
                label.clone(),
                diagram.get_config().participant_config,
            );
            assert(p@.activations =~= seq![]);
            diagram.add_participant(p);
            Ok(())
        },
        Statement::Message { from, to, label, style, activation_modifier } => {
            apply_message(diagram, last_message, from, to, label, *style, *activation_modifier, Ghost(active@))
        },
        Statement::GroupStart(kind, header) => {
            let pos = diagram.get_timeline().len();
            let group_config = diagram.get_config().group_config;
            let group = match kind {
                GroupKind::Simple => Group::SimpleGroup(
                    SimpleGroup::new(pos, header.clone(), String::new(), group_config),
                ),
                GroupKind::Alt => Group::AltGroup(AltGroup::new(pos, header.clone(), group_config)),
            };
            assert(group@ == new_group(*kind, header@, pos, st.diagram)) by {
                assert(group@.simple().header =~= match kind {
                    GroupKind::Simple => seq![],
                    GroupKind::Alt => header@,
                });
            }
            let g = diagram.start_group(group);
            active.push(g);
            Ok(())
        },
        Statement::AltElse(label) => {
            if active.len() == 0 {
                return Err(Error::CaseWithoutGroup);
            }
            let g = active[active.len() - 1];
            diagram.add_alt_case(g, label.clone())
        },
        Statement::GroupEnd => {
            match active.pop() {
                Some(g) => {
                    diagram.end_group(g);
                    Ok(())
                },
                None => Err(Error::EndWithoutGroup),
            }
        },
        Statement::Activate(name) => {
            let start = match last_message {
                Some(lm) => Some(lm.0),
                None => None,
            };
            diagram.activate(name.as_str(), start);
            Ok(())
        },
        Statement::Deactivate(name) => diagram.deactivate(name.as_str()),
        Statement::Note { label, direction } => apply_note(diagram, last_message, label, direction, Ghost(active@)),
        Statement::Separator(label) => {
            diagram.add_separator(label.clone());
            Ok(())
        },
    }
}

/// Builds the diagram that `statements` describe, in order, with the font sizes of
/// `config`. Stops at the first statement that breaks a rule of the model; a group
/// still open at the end is an error too.
pub fn create_diagram(statements: &Vec<Statement>, config: Config) -> (r: Result<SequenceDiagram, Error>)
    requires
        3 * statements@.len() + 8 <= usize::MAX,
    ensures
        match build(statements_view(statements@), config) {
            Ok(v) => r matches Ok(d) && d@ == v && d@.wf(),
            Err(e) => r matches Err(x) && x@ == e,
        },
{
    let ghost stmts = statements_view(statements@);
    let ghost init = BuildState { diagram: empty_diagram(config), active: seq![], last_message: None };
    let mut diagram = SequenceDiagram::new(config);
    let mut active: Vec<usize> = Vec::new();
    let mut last_message: Option<(usize, Message)> = None;
    assert(active@ =~= seq![]);
    assert(run(init, stmts.take(0)) == Ok::<BuildState, ErrorView>(init));
    let mut i: usize = 0;
    while i < statements.len()
        invariant
            3 * statements@.len() + 8 <= usize::MAX,
            stmts == statements_view(statements@),
            init == (BuildState { diagram: empty_diagram(config), active: seq![], last_message: None }),
            i <= statements@.len(),
            run(init, stmts.take(i as int)) == Ok::<BuildState, ErrorView>(
                BuildState { diagram: diagram@, active: active@, last_message: last_message_view(last_message) },
            ),
            state_ok(diagram@, active@, last_message_view(last_message)),
            diagram@.config == config,
            diagram@.participants.len() <= 3 * i,
        decreases statements@.len() - i,
    {
        assert(stmts.take(i as int + 1).drop_last() =~= stmts.take(i as int));
        assert(stmts.take(i as int + 1).last() == statements@[i as int]@);
        match apply_statement(&mut diagram, &mut active, &mut last_message, &statements[i]) {
            Ok(()) => {},
            Err(e) => {
                proof {
                    lemma_run_err_prefix(init, stmts, i as int + 1, e@);
                }
                return Err(e);
            },
        }
        i = i + 1;
    }
    assert(stmts.take(i as int) =~= stmts);
    if active.len() > 0 {
        return Err(Error::UnclosedGroup);
    }
    Ok(diagram)
}


pub open spec fn initial_state(config: Config) -> BuildState {
    BuildState { diagram: empty_diagram(config), active: seq![], last_message: None }
}

/// Closing an activation fails with `NoOpenActivation` on a participant with none open
/// and with `UnknownParticipant` on a name no participant has; once a statement fails,
/// building stops with that error whatever follows.
pub proof fn lemma_deactivate_failures(
    st: BuildState,
    name: Seq<char>,
    stmts: Seq<StatementView>,
    config: Config,
    k: int,
)
    requires
        0 <= k < stmts.len(),
        run(initial_state(config), stmts.take(k)) == Ok::<BuildState, ErrorView>(st),
        stmts[k] == StatementView::Deactivate(name),
    ensures
        st.diagram.find(name) is None ==> build(stmts, config) == Err::<DiagramView, ErrorView>(
            ErrorView::UnknownParticipant(name),
        ),
        st.diagram.find(name) matches Some(i) && open_count(
            st.diagram.participants[i as int].activations,
        ) == 0 ==> build(stmts, config) == Err::<DiagramView, ErrorView>(ErrorView::NoOpenActivation(name)),
{
    assert(stmts.take(k + 1).drop_last() =~= stmts.take(k));
    assert(stmts.take(k + 1).last() == stmts[k]);
    if st.diagram.find(name) is None {
        lemma_run_err_prefix(initial_state(config), stmts, k + 1, ErrorView::UnknownParticipant(name));
    } else if open_count(st.diagram.participants[st.diagram.find(name)->Some_0 as int].activations) == 0 {
        lemma_run_err_prefix(initial_state(config), stmts, k + 1, ErrorView::NoOpenActivation(name));
    }
}

/// A message that closes its sender's activation fails with `NoOpenActivation` when the
/// sender has none open (in particular when the message creates it); building stops there.
pub proof fn lemma_message_deactivate_failure(
    st: BuildState,
    from: Seq<char>,
    to: Seq<char>,
    label: Seq<char>,
    style: LineStyle,
    stmts: Seq<StatementView>,
    config: Config,
    k: int,
)
    requires
        0 <= k < stmts.len(),
        st.diagram.wf(),
        run(initial_state(config), stmts.take(k)) == Ok::<BuildState, ErrorView>(st),
        stmts[k] == (StatementView::Message {
            from,
            to,
            label,
            style,
            activation_modifier: Some(ActivationModifier::Deactivate),
        }),
        st.diagram.find(from) matches Some(i) ==> open_count(st.diagram.participants[i as int].activations) == 0,
    ensures
        build(stmts, config) == Err::<DiagramView, ErrorView>(ErrorView::NoOpenActivation(from)),
{
    let d = st.diagram;
    let d1 = d.with_named(from);
    let d2 = d1.with_named(to);
    let i = d.index_for(from);
    crate::diagram::lemma_first_named(d.participants, from);
    assert(d1.participants.len() <= usize::MAX);
    if d.find(from) is None {
        assert(d1.participants.drop_last() =~= d.participants);
    }
    assert(d1.find(from) == Some(i));
    crate::diagram::lemma_first_named(d1.participants, to);
    if d1.find(to) is None {
        assert(d2.participants.drop_last() =~= d1.participants);
        assert(d2.participants[i as int] == d1.participants[i as int]);
    }
    assert(d2.find(from) == Some(i));
    assert(open_count(d2.participants[i as int].activations) == 0);
    let d3 = d.with_message(from, to, label, style);
    assert(d3.participants == d2.participants);
    assert(d3.deactivated(from) == Err::<DiagramView, ErrorView>(ErrorView::NoOpenActivation(from)));
    assert(stmts.take(k + 1).drop_last() =~= stmts.take(k));
    assert(stmts.take(k + 1).last() == stmts[k]);
    lemma_run_err_prefix(initial_state(config), stmts, k + 1, ErrorView::NoOpenActivation(from));
}

/// A statement that succeeds keeps every open group in existence.
proof fn lemma_step_groups_exist(st: BuildState, s: StatementView)
    requires
        forall|g: int| 0 <= g < st.active.len() ==> #[trigger] st.active[g] < st.diagram.groups.len(),
    ensures
        step(st, s) matches Ok(next) ==> st.diagram.groups.len() <= next.diagram.groups.len() && forall|g: int|
            0 <= g < next.active.len() ==> #[trigger] next.active[g] < next.diagram.groups.len(),
{
    let d = st.diagram;
    match s {
        StatementView::Message { from, to, label, style, activation_modifier } => {
            let d1 = d.with_message(from, to, label, style);
            assert(d1.groups == d.groups);
        },
        StatementView::GroupStart(kind, header) => {
            let next = step(st, s)->Ok_0;
            assert forall|g: int| 0 <= g < next.active.len() implies #[trigger] next.active[g] < next.diagram.groups.len() by {
                if g < st.active.len() {
                    assert(next.active[g] == st.active[g]);
                }
            }
        },
        StatementView::GroupEnd => {
            if st.active.len() > 0 {
                let next = step(st, s)->Ok_0;
                assert forall|g: int| 0 <= g < next.active.len() implies #[trigger] next.active[g] < next.diagram.groups.len() by {
                    assert(next.active[g] == st.active[g]);
                }
            }
        },
        _ => {},
    }
}

/// In every state that building reaches, the open groups exist.
pub proof fn lemma_run_groups_exist(config: Config, stmts: Seq<StatementView>)
    ensures
        run(initial_state(config), stmts) matches Ok(st) ==> forall|g: int|
            0 <= g < st.active.len() ==> #[trigger] st.active[g] < st.diagram.groups.len(),
    decreases stmts.len(),
{
    if stmts.len() > 0 {
        lemma_run_groups_exist(config, stmts.drop_last());
        match run(initial_state(config), stmts.drop_last()) {
            Ok(st) => lemma_step_groups_exist(st, stmts.last()),
            Err(_) => {},
        }
    }
}

/// An alt case with no group open fails with `CaseWithoutGroup`, one whose innermost open
/// group is a simple group with `CaseOutsideAlt`, and a group end with no group open with
/// `EndWithoutGroup`; building stops there. Input that ends with a group open fails with
/// `UnclosedGroup`.
pub proof fn lemma_group_failures(st: BuildState, stmts: Seq<StatementView>, config: Config, k: int)
    requires
        0 <= k <= stmts.len(),
        run(initial_state(config), stmts.take(k)) == Ok::<BuildState, ErrorView>(st),
    ensures
        k < stmts.len() && stmts[k] is AltElse && st.active.len() == 0 ==> build(stmts, config)
            == Err::<DiagramView, ErrorView>(ErrorView::CaseWithoutGroup),
        k < stmts.len() && stmts[k] is AltElse && st.active.len() > 0
            && st.diagram.groups[st.active.last() as int] is Simple ==> build(stmts, config)
            == Err::<DiagramView, ErrorView>(ErrorView::CaseOutsideAlt),
        k < stmts.len() && stmts[k] is GroupEnd && st.active.len() == 0 ==> build(stmts, config)
            == Err::<DiagramView, ErrorView>(ErrorView::EndWithoutGroup),
        k == stmts.len() && st.active.len() > 0 ==> build(stmts, config) == Err::<DiagramView, ErrorView>(
            ErrorView::UnclosedGroup,
        ),
{
    lemma_run_groups_exist(config, stmts.take(k));
    if k < stmts.len() {
        assert(stmts.take(k + 1).drop_last() =~= stmts.take(k));
        assert(stmts.take(k + 1).last() == stmts[k]);
        let r = step(st, stmts[k]);
        if r is Err {
            lemma_run_err_prefix(initial_state(config), stmts, k + 1, r->Err_0);
        }
    } else {
        assert(stmts.take(k) =~= stmts);
    }
}

/// Replaying the same statements with the same configuration gives the same diagram,
/// and so the same geometry.
pub proof fn lemma_build_deterministic(s1: Seq<StatementView>, s2: Seq<StatementView>, config: Config)
    requires
        s1 == s2,
    ensures
        build(s1, config) == build(s2, config),
        build(s1, config) matches Ok(d1) ==> build(s2, config) matches Ok(d2) && diagram_cols(d1)
            == diagram_cols(d2) && diagram_rows(d1) == diagram_rows(d2),
{
}

} // verus!
