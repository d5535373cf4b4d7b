//! How a cluster is deployed.

use vstd::prelude::*;

verus! {

/// The least number of voters in production.
pub const PRODUCTION_MINIMUM_VOTERS: u16 = 3;

/// How many copies of everything production keeps.
pub const PRODUCTION_REPLICATION_FACTOR: u16 = 3;

#[derive(Clone, Copy, Debug, PartialEq, Eq, Structural)]
pub enum DeploymentMode {
    Development,
    Production,
}

#[derive(Clone, Copy, Debug, PartialEq, Eq, Structural)]
pub struct ClusterConfig {
    pub mode: DeploymentMode,
    pub voters: u16,
}

#[derive(Clone, Copy, Debug, PartialEq, Eq, Structural)]
pub enum ClusterConfigError {
    DevelopmentRequiresOneVoter,
    ProductionRequiresOddQuorum,
}

/// Whether a cluster can be deployed so: development has one voter, and
/// production an odd number of them that outvotes a failure.
pub open spec fn deployable(config: ClusterConfig) -> bool {
    match config.mode {
        DeploymentMode::Development => config.voters == 1,
        DeploymentMode::Production => config.voters >= PRODUCTION_MINIMUM_VOTERS && config.voters
            % 2 == 1,
    }
}

pub open spec fn cluster_error_text(error: ClusterConfigError) -> Seq<char> {
    match error {
        ClusterConfigError::DevelopmentRequiresOneVoter => {
            "development mode requires exactly one voter"@
        },
        ClusterConfigError::ProductionRequiresOddQuorum => {
            "production mode requires an odd voter count of at least three"@
        },
    }
}

impl ClusterConfigError {
    pub fn describe(&self) -> (text: &'static str)
        ensures
            text@ == cluster_error_text(*self),
    {
        match self {
            ClusterConfigError::DevelopmentRequiresOneVoter => {
                "development mode requires exactly one voter"
            },
            ClusterConfigError::ProductionRequiresOddQuorum => {
                "production mode requires an odd voter count of at least three"
            },
        }
    }
}

impl ClusterConfig {
    /// The configuration itself, if it can be deployed.
    pub fn validate(self) -> (valid: Result<ClusterConfig, ClusterConfigError>)
        ensures
            match valid {
                Ok(config) => deployable(self) && config == self,
                Err(error) => !deployable(self) && error == match self.mode {
                    DeploymentMode::Development => ClusterConfigError::DevelopmentRequiresOneVoter,
                    DeploymentMode::Production => ClusterConfigError::ProductionRequiresOddQuorum,
                },
            },
    {
        match self.mode {
            DeploymentMode::Development => if self.voters == 1 {
                Ok(self)
            } else {
                Err(ClusterConfigError::DevelopmentRequiresOneVoter)
            },
            DeploymentMode::Production => if self.voters >= PRODUCTION_MINIMUM_VOTERS && self.voters
                % 2 == 1 {
                Ok(self)
            } else {
                Err(ClusterConfigError::ProductionRequiresOddQuorum)
            },
        }
    }
}

/// Two majorities of the voters of a deployable cluster have a voter in common,
/// and in production a majority is left when one voter fails.
pub proof fn majorities_meet(config: ClusterConfig, one: int, other: int)
    requires
        deployable(config),
        2 * one > config.voters,
        2 * other > config.voters,
    ensures
        one + other > config.voters,
        config.mode == DeploymentMode::Production ==> 2 * (config.voters - 1) > config.voters,
{
}

} // verus!
