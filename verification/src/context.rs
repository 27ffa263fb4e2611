//! The shared context: the one immutable handle to configuration-derived
//! state that every handler invocation receives.
//!
//! Only the bootstrap constructs it — the constructor is crate-private, and
//! the one caller is the setup step in `bootstrap` — and nothing mutates it
//! afterwards: the type offers no way to.

use vstd::prelude::*;

use crate::config::Config;
use crate::config::ConfigV;

verus! {

/// The immutable, shared handle built once from the loaded configuration.
#[derive(Clone, Debug, PartialEq, Eq)]
pub struct SharedContext {
    config: Config,
}

impl View for SharedContext {
    type V = ConfigV;

    closed spec fn view(&self) -> ConfigV {
        self.config@
    }
}

impl SharedContext {
    /// Builds the context from the loaded configuration. Crate-private: no
    /// component other than the bootstrap constructs a context.
    pub(crate) fn new(config: Config) -> (c: SharedContext)
        ensures
            c@ == config@,
    {
        SharedContext { config }
    }

    /// The cooldown, in seconds, between two moderation reports for one user.
    pub fn text_detect_cooldown(&self) -> (r: u64)
        ensures
            r == self@.text_detect_cooldown,
    {
        self.config.text_detect_cooldown
    }

    /// The channel that receives reaction-threshold announcements.
    pub fn starboard_channel(&self) -> (r: u64)
        ensures
            r == self@.starboard_channel,
    {
        self.config.starboard_channel
    }

    /// The number of reactions a message needs before it is announced.
    pub fn starboard_threshold(&self) -> (r: u64)
        ensures
            r == self@.starboard_threshold,
    {
        self.config.starboard_threshold
    }

    /// The roles the agent may assign and remove.
    pub fn bot_roles(&self) -> (r: &Vec<u64>)
        ensures
            r@ == self@.bot_roles,
    {
        &self.config.bot_roles
    }

    /// The byte patterns the moderation collaborator screens messages for.
    pub fn moderated_patterns(&self) -> (r: &Vec<Vec<u8>>)
        ensures
            crate::config::patterns_view(r@) == self@.moderated_patterns,
    {
        &self.config.moderated_patterns
    }

    /// The whole configuration the context was built from.
    pub fn configuration(&self) -> (r: &Config)
        ensures
            r@ == self@,
    {
        &self.config
    }
}

} // verus!
