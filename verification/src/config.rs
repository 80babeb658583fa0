//! The settings an engine is made from.

use vstd::prelude::*;
use crate::engine::EngineMode;
use crate::wire::text_view;

verus! {

/// A required setting is missing. This is fatal at start-up.
#[derive(Debug, Clone, Copy, PartialEq, Eq, Structural)]
pub enum ConfigurationError {
    /// The settings have no `global` section.
    MissingGlobal,
    /// The `global` section names no message brokers.
    MissingBrokers,
}

/// The settings of an engine, once checked.
#[derive(Debug)]
pub struct EngineConfig {
    /// No live feed: adapters are left alone and no tick is drained.
    pub offline_mode: bool,
    /// The message brokers, as one comma-separated list of endpoints.
    pub brokers: String,
}

/// What an [`EngineConfig`] holds, as mathematical values.
pub struct EngineConfigView {
    pub offline_mode: bool,
    pub brokers: Seq<char>,
}

impl View for EngineConfig {
    type V = EngineConfigView;

    open spec fn view(&self) -> EngineConfigView {
        EngineConfigView { offline_mode: self.offline_mode, brokers: self.brokers@ }
    }
}

/// The checked settings that the raw ones give, or the first that is missing.
pub open spec fn checked(
    has_global: bool,
    offline_mode: Option<bool>,
    brokers: Option<Seq<char>>,
) -> Result<EngineConfigView, ConfigurationError> {
    if !has_global {
        Err(ConfigurationError::MissingGlobal)
    } else if brokers is None {
        Err(ConfigurationError::MissingBrokers)
    } else {
        Ok(
            EngineConfigView {
                offline_mode: match offline_mode {
                    Some(flag) => flag,
                    None => false,
                },
                brokers: brokers->0,
            },
        )
    }
}

/// The view of checked settings or of the reason there are none.
pub open spec fn config_result_view(r: Result<EngineConfig, ConfigurationError>) -> Result<
    EngineConfigView,
    ConfigurationError,
> {
    match r {
        Ok(config) => Ok(config@),
        Err(e) => Err(e),
    }
}

impl EngineConfig {
    /// Checks the settings as the host read them: whether there is a
    /// `global` section, its `offline_mode` flag if it has one that is a
    /// boolean, and the broker list if it has one.
    ///
    /// A missing section or broker list is an error; a missing flag means
    /// that the engine is live.
    pub fn from_settings(
        has_global: bool,
        offline_mode: Option<bool>,
        brokers: Option<String>,
    ) -> (r: Result<EngineConfig, ConfigurationError>)
        ensures
            config_result_view(r) == checked(has_global, offline_mode, text_view(brokers)),
    {
        if !has_global {
            return Err(ConfigurationError::MissingGlobal);
        }
        let brokers = match brokers {
            Some(list) => list,
            None => {
                return Err(ConfigurationError::MissingBrokers);
            },
        };
        let offline_mode = match offline_mode {
            Some(flag) => flag,
            None => false,
        };
        Ok(EngineConfig { offline_mode, brokers })
    }

    /// The engine mode that these settings ask for, with or without
    /// priming from history.
    pub fn mode(&self, backfill: bool) -> (m: EngineMode)
        ensures
            m == (EngineMode { offline: self.offline_mode, backfill }),
    {
        EngineMode { offline: self.offline_mode, backfill }
    }
}

} // verus!
