use vstd::prelude::*;

use crate::layout::{byte_len, string_width, text_width};

verus! {

/// Horizontal room kept free on either side of a participant box, in total.
pub const PARTICIPANT_SPACE: u128 = 20;

/// Padding added to a participant label to get its box width.
pub const PARTICIPANT_PADDING: u128 = 50;

/// Width of an activation bar.
pub const ACTIVATION_WIDTH: i128 = 10;

/// Horizontal step between nested activation bars.
pub const ACTIVATION_NESTING_OFFSET: i128 = 3;

/// Font size of participant labels.
#[derive(Clone, Copy, Debug, PartialEq, Eq, Structural)]
pub struct ParticipantConfig {
    pub font_size: u32,
}

/// How a participant is drawn.
#[derive(Clone, Copy, Debug, PartialEq, Eq, Structural)]
pub enum ParticipantKind {
    Default,
    Actor,
    Database,
}

/// One span during which a participant executes. `end` is `None` while the span is open.
#[derive(Clone, Copy, Debug, PartialEq, Eq, Structural)]
pub struct Activation {
    pub start: Option<usize>,
    pub end: Option<usize>,
    /// Number of activations of the same participant still open when this one started.
    pub nesting: usize,
}

impl Activation {
    pub open spec fn is_open(self) -> bool {
        self.end is None
    }

    pub open spec fn covers(self, row: int) -> bool {
        (match self.start {
            Some(s) => s <= row,
            None => true,
        }) && (match self.end {
            Some(e) => e >= row,
            None => true,
        })
    }

    pub fn new(start: Option<usize>, nesting: usize) -> (r: Activation)
        ensures
            r == (Activation { start, end: None, nesting }),
    {
        Activation { start, end: None, nesting }
    }

    pub fn end(&mut self, end: usize)
        ensures
            *final(self) == (Activation { end: Some(end), ..*old(self) }),
    {
        self.end = Some(end);
    }

    /// Whether the span covers `row`; a missing bound is unbounded on that side.
    pub fn contains(&self, row: usize) -> (r: bool)
        ensures
            r == self.covers(row as int),
    {
        let starts_before = match self.start {
            Some(s) => s <= row,
            None => true,
        };
        let ends_after = match self.end {
            Some(e) => e >= row,
            None => true,
        };
        starts_before && ends_after
    }
}

/// Number of open activations in `acts`.
pub open spec fn open_count(acts: Seq<Activation>) -> nat
    decreases acts.len(),
{
    if acts.len() == 0 {
        0
    } else {
        open_count(acts.drop_last()) + if acts.last().is_open() { 1nat } else { 0nat }
    }
}

/// Number of activations in `acts` that cover `row`.
pub open spec fn count_covering(acts: Seq<Activation>, row: int) -> nat
    decreases acts.len(),
{
    if acts.len() == 0 {
        0
    } else {
        count_covering(acts.drop_last(), row) + if acts.last().covers(row) { 1nat } else { 0nat }
    }
}

/// Index of the most recently opened activation that is still open, if any.
pub open spec fn last_open(acts: Seq<Activation>) -> Option<int>
    decreases acts.len(),
{
    if acts.len() == 0 {
        None
    } else if acts.last().is_open() {
        Some(acts.len() - 1)
    } else {
        last_open(acts.drop_last())
    }
}

/// Activations after opening one that starts at `start`.
pub open spec fn activated(acts: Seq<Activation>, start: Option<usize>) -> Seq<Activation> {
    acts.push(Activation { start, end: None, nesting: open_count(acts) as usize })
}

/// Activations after closing the most recently opened open one at row `end`.
pub open spec fn deactivated(acts: Seq<Activation>, end: usize) -> Seq<Activation> {
    match last_open(acts) {
        Some(i) => acts.update(i, Activation { end: Some(end), ..acts[i] }),
        None => acts,
    }
}

pub proof fn lemma_open_count_bound(acts: Seq<Activation>)
    ensures
        open_count(acts) <= acts.len(),
    decreases acts.len(),
{
    if acts.len() > 0 {
        lemma_open_count_bound(acts.drop_last());
    }
}

pub proof fn lemma_count_covering_bound(acts: Seq<Activation>, row: int)
    ensures
        count_covering(acts, row) <= acts.len(),
    decreases acts.len(),
{
    if acts.len() > 0 {
        lemma_count_covering_bound(acts.drop_last(), row);
    }
}

pub proof fn lemma_last_open(acts: Seq<Activation>)
    ensures
        last_open(acts) is None <==> open_count(acts) == 0,
        last_open(acts) matches Some(i) ==> 0 <= i < acts.len() && acts[i].is_open() && forall|
            j: int,
        |
            i < j < acts.len() ==> !(#[trigger] acts[j]).is_open(),
    decreases acts.len(),
{
    if acts.len() > 0 {
        lemma_last_open(acts.drop_last());
        assert forall|j: int| 0 <= j < acts.len() - 1 implies acts.drop_last()[j] == acts[j] by {}
    }
}

/// The open activation with no open one after it is the most recently opened open one.
pub proof fn lemma_last_open_at(acts: Seq<Activation>, k: int)
    requires
        0 <= k < acts.len(),
        acts[k].is_open(),
        forall|j: int| k < j < acts.len() ==> !(#[trigger] acts[j]).is_open(),
    ensures
        last_open(acts) == Some(k),
    decreases acts.len(),
{
    if k < acts.len() - 1 {
        lemma_last_open_at(acts.drop_last(), k);
    }
}

/// With no open activation, nothing is the most recently opened open one.
pub proof fn lemma_last_open_none(acts: Seq<Activation>)
    requires
        forall|j: int| 0 <= j < acts.len() ==> !(#[trigger] acts[j]).is_open(),
    ensures
        last_open(acts) is None,
    decreases acts.len(),
{
    if acts.len() > 0 {
        lemma_last_open_none(acts.drop_last());
    }
}

/// One participant of a diagram: its identity, label, kind, column and activations.
#[derive(Clone, Debug)]
pub struct Participant {
    pub name: String,
    pub label: String,
    pub kind: ParticipantKind,
    /// Column of the participant, counted from the left.
    pub idx: usize,
    pub activations: Vec<Activation>,
    pub config: ParticipantConfig,
}

pub ghost struct ParticipantView {
    pub name: Seq<char>,
    pub label: Seq<char>,
    pub kind: ParticipantKind,
    pub idx: usize,
    pub activations: Seq<Activation>,
    pub config: ParticipantConfig,
}

impl View for Participant {
    type V = ParticipantView;

    open spec fn view(&self) -> ParticipantView {
        ParticipantView {
            name: self.name@,
            label: self.label@,
            kind: self.kind,
            idx: self.idx,
            activations: self.activations@,
            config: self.config,
        }
    }
}

impl Participant {
    pub fn height(&self) -> (r: u128)
        ensures
            r == participant_height(self@),
    {
        let f = self.config.font_size as u128;
        match self.kind {
            ParticipantKind::Default => f * 2,
            ParticipantKind::Actor => f * 4,
            ParticipantKind::Database => f * 3,
        }
    }

    pub fn new(name: String, kind: ParticipantKind, config: ParticipantConfig) -> (r: Participant)
        ensures
            r.name@ == name@,
            r.label@ == name@,
            r.kind == kind,
            r.idx == 0,
            r.activations@ == Seq::<Activation>::empty(),
            r.config == config,
    {
        let label = name.clone();
        Participant::with_label(name, kind, label, config)
    }

    pub fn with_label(name: String, kind: ParticipantKind, label: String, config: ParticipantConfig) -> (r: Participant)
        ensures
            r.name == name,
            r.label == label,
            r.kind == kind,
            r.idx == 0,
            r.activations@ == Seq::<Activation>::empty(),
            r.config == config,
    {
        Participant { name, label, kind, idx: 0, activations: Vec::new(), config }
    }

    pub fn get_label(&self) -> (r: &String)
        ensures
            r == &self.label,
    {
        &self.label
    }

    pub fn get_kind(&self) -> (r: &ParticipantKind)
        ensures
            *r == self.kind,
    {
        &self.kind
    }

    pub fn get_idx(&self) -> (r: usize)
        ensures
            r == self.idx,
    {
        self.idx
    }

    /// Opens an activation whose nesting is the number of activations still open.
    pub fn activate(&mut self, start: Option<usize>)
        ensures
            final(self).activations@ == activated(old(self).activations@, start),
            final(self).name == old(self).name,
            final(self).label == old(self).label,
            final(self).kind == old(self).kind,
            final(self).idx == old(self).idx,
            final(self).config == old(self).config,
    {
        let mut nesting: usize = 0;
        let mut i: usize = 0;
        while i < self.activations.len()
            invariant
                i <= self.activations@.len(),
                nesting == open_count(self.activations@.take(i as int)),
            decreases self.activations@.len() - i,
        {
            proof {
                lemma_open_count_bound(self.activations@.take(i as int));
                assert(self.activations@.take(i as int + 1).drop_last() =~= self.activations@.take(i as int));
            }
            if self.activations[i].end.is_none() {
                nesting = nesting + 1;
            }
            i = i + 1;
        }
        assert(self.activations@.take(i as int) =~= self.activations@);
        self.activations.push(Activation::new(start, nesting));
    }

    /// Closes the most recently opened activation that is still open, at row `end`.
    /// Returns false, changing nothing, when no activation is open.
    pub fn deactivate(&mut self, end: usize) -> (r: bool)
        ensures
            r == (open_count(old(self).activations@) > 0),
            final(self).activations@ == deactivated(old(self).activations@, end),
            final(self).name == old(self).name,
            final(self).label == old(self).label,
            final(self).kind == old(self).kind,
            final(self).idx == old(self).idx,
            final(self).config == old(self).config,
    {
        proof {
            lemma_last_open(self.activations@);
        }
        let mut i: usize = self.activations.len();
        while i > 0
            invariant
                i <= self.activations@.len(),
                *self == *old(self),
                forall|j: int| i <= j < self.activations@.len() ==> !(#[trigger] self.activations@[j]).is_open(),
            decreases i,
        {
            if self.activations[i - 1].end.is_none() {
                proof {
                    lemma_last_open_at(self.activations@, i - 1);
                    lemma_last_open(self.activations@);
                }
                let mut a = self.activations[i - 1];
                a.end(end);
                self.activations.set(i - 1, a);
                return true;
            }
            i = i - 1;
        }
        proof {
            lemma_last_open_none(self.activations@);
            lemma_last_open(self.activations@);
        }
        false
    }

    /// Number of activations of this participant that cover `row`.
    pub fn count_activations_at(&self, row: usize) -> (r: usize)
        ensures
            r == count_covering(self.activations@, row as int),
    {
        let mut count: usize = 0;
        let mut i: usize = 0;
        while i < self.activations.len()
            invariant
                i <= self.activations@.len(),
                count == count_covering(self.activations@.take(i as int), row as int),
            decreases self.activations@.len() - i,
        {
            proof {
                lemma_count_covering_bound(self.activations@.take(i as int), row as int);
                assert(self.activations@.take(i as int + 1).drop_last() =~= self.activations@.take(i as int));
            }
            if self.activations[i].contains(row) {
                count = count + 1;
            }
            i = i + 1;
        }
        assert(self.activations@.take(i as int) =~= self.activations@);
        count
    }

    /// Horizontal offsets, left and right of the lifeline, at which arrows meet the
    /// activation bars covering `row`: nested bars fan out to the right.
    pub fn lifeline_offset(&self, row: usize) -> (r: (i128, i128))
        ensures
            r.0 as int == lifeline_offset_of(count_covering(self.activations@, row as int)).0,
            r.1 as int == lifeline_offset_of(count_covering(self.activations@, row as int)).1,
            -5 <= r.0 <= 0,
            0 <= r.1 <= 3 * (usize::MAX as int) + 5,
    {
        let count = self.count_activations_at(row);
        if count > 0 {
            let c = count as i128;
            (-(ACTIVATION_WIDTH / 2), ACTIVATION_WIDTH / 2 + (c - 1) * ACTIVATION_NESTING_OFFSET)
        } else {
            (0, 0)
        }
    }
}

/// Lifeline offsets for `count` covering activations.
pub open spec fn lifeline_offset_of(count: nat) -> (int, int) {
    if count > 0 {
        (-5, 5 + (count - 1) * 3)
    } else {
        (0, 0)
    }
}

/// Width of the participant's box: its label measured at its font size, plus padding.
pub open spec fn rendered_width(p: ParticipantView) -> nat {
    text_width(byte_len(p.label), p.config.font_size as nat) + 50
}

/// Horizontal room a participant needs: its box plus the free space around it.
pub open spec fn participant_width(p: ParticipantView) -> nat {
    rendered_width(p) + 20
}

/// Height of a participant's glyph, in multiples of its font size by kind.
pub open spec fn participant_height(p: ParticipantView) -> nat {
    match p.kind {
        ParticipantKind::Default => p.config.font_size as nat * 2,
        ParticipantKind::Actor => p.config.font_size as nat * 4,
        ParticipantKind::Database => p.config.font_size as nat * 3,
    }
}

/// Timeline event: a participant was created (by index).
#[derive(Clone, Copy, Debug, PartialEq, Eq, Structural)]
pub struct ParticipantCreated {
    pub participant: usize,
}

pub fn get_rendered_width(participant: &Participant) -> (r: u128)
    ensures
        r == rendered_width(participant@),
        r < 0x1_0000_0000_0000_0000_0000_0100u128,
{
    string_width(participant.label.as_str(), participant.config.font_size) + PARTICIPANT_PADDING
}

pub fn get_participant_width(participant: &Participant) -> (r: u128)
    ensures
        r == participant_width(participant@),
        r < 0x1_0000_0000_0000_0000_0000_0200u128,
{
    get_rendered_width(participant) + PARTICIPANT_SPACE
}


/// On a participant with no activation open, opening two activations and closing two
/// gives nesting 0 to the first and 1 to the second; the first close ends the second one
/// (the most recently opened), and only the second close ends the first.
pub proof fn lemma_nested_activations(
    acts: Seq<Activation>,
    s1: Option<usize>,
    s2: Option<usize>,
    e1: usize,
    e2: usize,
)
    requires
        open_count(acts) == 0,
    ensures
        activated(activated(acts, s1), s2)[acts.len() as int].nesting == 0,
        activated(activated(acts, s1), s2)[acts.len() as int + 1].nesting == 1,
        deactivated(activated(activated(acts, s1), s2), e1) == acts.push(
            Activation { start: s1, end: None, nesting: 0 },
        ).push(Activation { start: s2, end: Some(e1), nesting: 1 }),
        deactivated(deactivated(activated(activated(acts, s1), s2), e1), e2) == acts.push(
            Activation { start: s1, end: Some(e2), nesting: 0 },
        ).push(Activation { start: s2, end: Some(e1), nesting: 1 }),
{
    let a1 = activated(acts, s1);
    assert(a1.drop_last() == acts);
    assert(open_count(a1) == 1);
    let a2 = activated(a1, s2);
    let n = acts.len() as int;
    lemma_last_open_at(a2, n + 1);
    let a3 = deactivated(a2, e1);
    assert(a3 =~= acts.push(Activation { start: s1, end: None, nesting: 0 }).push(
        Activation { start: s2, end: Some(e1), nesting: 1 },
    ));
    lemma_last_open_at(a3, n);
    let a4 = deactivated(a3, e2);
    assert(a4 =~= acts.push(Activation { start: s1, end: Some(e2), nesting: 0 }).push(
        Activation { start: s2, end: Some(e1), nesting: 1 },
    ));
}

} // verus!
