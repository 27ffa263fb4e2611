//! The configuration document: operational toggles and identifiers the
//! downstream collaborators read. Loaded once per process start, shared
//! read-only afterwards, persisted back on demand.

use vstd::prelude::*;

verus! {

/// The configuration a process runs under. The credential is deliberately
/// not part of it: the credential comes from the environment, never from the
/// persisted document.
#[derive(Clone, Debug, PartialEq, Eq)]
pub struct Config {
    /// Cooldown, in seconds, between two moderation reports for one user.
    pub text_detect_cooldown: u64,
    /// Channel that receives reaction-threshold announcements.
    pub starboard_channel: u64,
    /// Number of reactions a message needs before it is announced.
    pub starboard_threshold: u64,
    /// Roles the agent may assign and remove.
    pub bot_roles: Vec<u64>,
    /// Byte patterns the moderation collaborator screens messages for.
    pub moderated_patterns: Vec<Vec<u8>>,
}

/// The values of a sequence of byte vectors, element by element.
pub open spec fn patterns_view(ps: Seq<Vec<u8>>) -> Seq<Seq<u8>> {
    Seq::new(ps.len(), |i: int| ps[i]@)
}

/// The mathematical value of a configuration.
pub ghost struct ConfigV {
    pub text_detect_cooldown: u64,
    pub starboard_channel: u64,
    pub starboard_threshold: u64,
    pub bot_roles: Seq<u64>,
    pub moderated_patterns: Seq<Seq<u8>>,
}

impl View for Config {
    type V = ConfigV;

    open spec fn view(&self) -> ConfigV {
        ConfigV {
            text_detect_cooldown: self.text_detect_cooldown,
            starboard_channel: self.starboard_channel,
            starboard_threshold: self.starboard_threshold,
            bot_roles: self.bot_roles@,
            moderated_patterns: patterns_view(self.moderated_patterns@),
        }
    }
}

impl Config {
    /// Every configuration a process holds is a valid value: its counts and
    /// lengths are bounded by the machine, and the machine's bounds lie
    /// within the encoding's.
    pub proof fn lemma_view_valid(&self)
        ensures
            self@.valid(),
    {
        broadcast use vstd::std_specs::vec::axiom_spec_len;

        assert(self.bot_roles@.len() == self.bot_roles.len());
        assert(self.moderated_patterns@.len() == self.moderated_patterns.len());
        assert forall|i: int|
            0 <= i < self@.moderated_patterns.len() implies (
        #[trigger] self@.moderated_patterns[i]).len() <= u64::MAX by {
            assert(self.moderated_patterns@[i]@.len() == self.moderated_patterns@[i].len());
        }
    }
}

impl ConfigV {
    /// A configuration value the persisted encoding can carry: every count
    /// and length fits the encoding's numeric fields. Every configuration a
    /// process actually holds satisfies this.
    pub open spec fn valid(self) -> bool {
        &&& self.bot_roles.len() <= u64::MAX
        &&& self.moderated_patterns.len() <= u64::MAX
        &&& forall|i: int|
            0 <= i < self.moderated_patterns.len() ==> (#[trigger] self.moderated_patterns[i]).len()
                <= u64::MAX
    }
}

} // verus!
