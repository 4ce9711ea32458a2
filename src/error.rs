use vstd::prelude::*;

verus! {

/// Why building a diagram stopped. Every one is fatal: no partial diagram comes back.
#[derive(Clone, Debug, PartialEq, Eq)]
pub enum Error {
    /// The participant was deactivated with no activation open.
    NoOpenActivation(String),
    /// A participant that does not exist, by this name, was deactivated.
    UnknownParticipant(String),
    /// An alt case came with no group open.
    CaseWithoutGroup,
    /// An alt case came while the innermost open group is not an alt group.
    CaseOutsideAlt,
    /// A group end came with no group open.
    EndWithoutGroup,
    /// A note relative to the last message came before any message.
    NoteBeforeMessage,
    /// A note over participants names this one, which does not exist.
    UnknownNoteParticipant(String),
    /// A group was still open when the input ended.
    UnclosedGroup,
}

pub ghost enum ErrorView {
    NoOpenActivation(Seq<char>),
    UnknownParticipant(Seq<char>),
    CaseWithoutGroup,
    CaseOutsideAlt,
    EndWithoutGroup,
    NoteBeforeMessage,
    UnknownNoteParticipant(Seq<char>),
    UnclosedGroup,
}

impl View for Error {
    type V = ErrorView;

    open spec fn view(&self) -> ErrorView {
        match self {
            Error::NoOpenActivation(n) => ErrorView::NoOpenActivation(n@),
            Error::UnknownParticipant(n) => ErrorView::UnknownParticipant(n@),
            Error::CaseWithoutGroup => ErrorView::CaseWithoutGroup,
            Error::CaseOutsideAlt => ErrorView::CaseOutsideAlt,
            Error::EndWithoutGroup => ErrorView::EndWithoutGroup,
            Error::NoteBeforeMessage => ErrorView::NoteBeforeMessage,
            Error::UnknownNoteParticipant(n) => ErrorView::UnknownNoteParticipant(n@),
            Error::UnclosedGroup => ErrorView::UnclosedGroup,
        }
    }
}

/// The sentence that describes each kind of error.
pub open spec fn error_text(e: ErrorView) -> &'static str {
    match e {
        ErrorView::NoOpenActivation(_) => "Attempting to deactivate participant with no activation",
        ErrorView::UnknownParticipant(_) => "Missing participant for deactivate",
        ErrorView::CaseWithoutGroup => "else without active alt group",
        ErrorView::CaseOutsideAlt => "else when active group is not an 'alt' group",
        ErrorView::EndWithoutGroup => "Found end without active group",
        ErrorView::NoteBeforeMessage => "Adding note for message before defining any messages",
        ErrorView::UnknownNoteParticipant(_) => "No participant for note",
        ErrorView::UnclosedGroup => "Group with no closing end keyword",
    }
}

impl Error {
    /// A sentence that describes the error; `participant` names the participant it is about.
    pub fn message(&self) -> (r: &'static str)
        ensures
            r == error_text(self@),
    {
        match self {
            Error::NoOpenActivation(_) => "Attempting to deactivate participant with no activation",
            Error::UnknownParticipant(_) => "Missing participant for deactivate",
            Error::CaseWithoutGroup => "else without active alt group",
            Error::CaseOutsideAlt => "else when active group is not an 'alt' group",
            Error::EndWithoutGroup => "Found end without active group",
            Error::NoteBeforeMessage => "Adding note for message before defining any messages",
            Error::UnknownNoteParticipant(_) => "No participant for note",
            Error::UnclosedGroup => "Group with no closing end keyword",
        }
    }

    /// The participant the error is about, if any.
    pub fn participant(&self) -> (r: Option<&String>)
        ensures
            r matches Some(n) ==> match self@ {
                ErrorView::NoOpenActivation(m) => n@ == m,
                ErrorView::UnknownParticipant(m) => n@ == m,
                ErrorView::UnknownNoteParticipant(m) => n@ == m,
                _ => false,
            },
            r is None <==> !(self@ is NoOpenActivation || self@ is UnknownParticipant
                || self@ is UnknownNoteParticipant),
    {
        match self {
            Error::NoOpenActivation(n) => Some(n),
            Error::UnknownParticipant(n) => Some(n),
            Error::UnknownNoteParticipant(n) => Some(n),
            _ => None,
        }
    }
}

} // verus!
