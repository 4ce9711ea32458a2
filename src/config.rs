use vstd::prelude::*;

use crate::group::GroupConfig;
use crate::message::MessageConfig;
use crate::note::NoteConfig;
use crate::participant::ParticipantConfig;
use crate::separator::SeparatorConfig;

verus! {

/// Font size used for every entity kind unless configured otherwise.
pub const DEFAULT_FONT_SIZE: u32 = 12;

/// Font size of participant boxes: a third larger than the default.
pub const DEFAULT_PARTICIPANT_FONT_SIZE: u32 = 16;

/// Font size of each kind of entity, fixed for the lifetime of a diagram.
#[derive(Clone, Copy, Debug)]
pub struct Config {
    pub group_config: GroupConfig,
    pub message_config: MessageConfig,
    pub note_config: NoteConfig,
    pub participant_config: ParticipantConfig,
    pub separator_config: SeparatorConfig,
}

impl Default for Config {
    fn default() -> (r: Config)
        ensures
            r.group_config.font_size == DEFAULT_FONT_SIZE,
            r.message_config.font_size == DEFAULT_FONT_SIZE,
            r.note_config.font_size == DEFAULT_FONT_SIZE,
            r.participant_config.font_size == DEFAULT_PARTICIPANT_FONT_SIZE,
            r.separator_config.font_size == DEFAULT_FONT_SIZE,
    {
        Config {
            group_config: GroupConfig { font_size: DEFAULT_FONT_SIZE },
            message_config: MessageConfig { font_size: DEFAULT_FONT_SIZE },
            note_config: NoteConfig { font_size: DEFAULT_FONT_SIZE },
            participant_config: ParticipantConfig { font_size: DEFAULT_PARTICIPANT_FONT_SIZE },
            separator_config: SeparatorConfig { font_size: DEFAULT_FONT_SIZE },
        }
    }
}

} // verus!
