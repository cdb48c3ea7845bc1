//! The boolean flags of a save file that the game is known to read.

use vstd::prelude::*;

verus! {

/// A known flag. Each is a key of the boolean dictionary.
#[derive(Debug, Clone, Copy, Hash, PartialEq, Eq, Structural)]
pub enum SuperhotOptions {
    UnlockEverything,
    StoryFinished,
    Subway,
    AppQuitUnlocked,
    HotswitchReady,
    RecruitRedirectUnlock,
    KillstagramUnlocked,
    ReplayUploaded,
    WasPlayedBefore,
    HallOfFame,
}

impl SuperhotOptions {
    /// The name of the flag as the game writes it.
    pub open spec fn static_name(self) -> &'static str {
        match self {
            SuperhotOptions::UnlockEverything => "unlockEverything",
            SuperhotOptions::StoryFinished => "storyFinished",
            SuperhotOptions::Subway => "subway",
            SuperhotOptions::AppQuitUnlocked => "APPquitunlocked",
            SuperhotOptions::HotswitchReady => "hotswitchReady",
            SuperhotOptions::RecruitRedirectUnlock => "APPrecruitredirectunlocked",
            SuperhotOptions::KillstagramUnlocked => "APPkillstagramunlocked",
            SuperhotOptions::ReplayUploaded => "repleyUploaded",
            SuperhotOptions::WasPlayedBefore => "WasPlayedBefore",
            SuperhotOptions::HallOfFame => "hallOfFame",
        }
    }

    /// The key under which the flag is stored.
    pub open spec fn key(self) -> Seq<char> {
        self.static_name()@
    }

    /// The name of the flag as the game writes it.
    pub fn name(self) -> (r: &'static str)
        ensures
            r == self.static_name(),
            r@ == self.key(),
    {
        match self {
            SuperhotOptions::UnlockEverything => "unlockEverything",
            SuperhotOptions::StoryFinished => "storyFinished",
            SuperhotOptions::Subway => "subway",
            SuperhotOptions::AppQuitUnlocked => "APPquitunlocked",
            SuperhotOptions::HotswitchReady => "hotswitchReady",
            SuperhotOptions::RecruitRedirectUnlock => "APPrecruitredirectunlocked",
            SuperhotOptions::KillstagramUnlocked => "APPkillstagramunlocked",
            SuperhotOptions::ReplayUploaded => "repleyUploaded",
            SuperhotOptions::WasPlayedBefore => "WasPlayedBefore",
            SuperhotOptions::HallOfFame => "hallOfFame",
        }
    }
}

impl From<SuperhotOptions> for &'static str {
    /// The name of the flag as the game writes it.
    fn from(option: SuperhotOptions) -> (r: &'static str) {
        option.name()
    }
}

impl vstd::std_specs::convert::FromSpecImpl<SuperhotOptions> for &'static str {
    open spec fn obeys_from_spec() -> bool {
        true
    }

    open spec fn from_spec(option: SuperhotOptions) -> &'static str {
        option.static_name()
    }
}

} // verus!
