use switchyard::cluster::{ClusterConfig, ClusterConfigError, DeploymentMode};

#[test]
fn production_rejects_two_voters() {
    let config = ClusterConfig {
        mode: DeploymentMode::Production,
        voters: 2,
    };
    assert_eq!(
        config.validate(),
        Err(ClusterConfigError::ProductionRequiresOddQuorum)
    );
}

#[test]
fn production_accepts_three_voters() {
    let config = ClusterConfig {
        mode: DeploymentMode::Production,
        voters: 3,
    };
    assert_eq!(config.validate(), Ok(config));
}

#[test]
fn development_has_exactly_one_voter() {
    let config = ClusterConfig {
        mode: DeploymentMode::Development,
        voters: 1,
    };
    assert_eq!(config.validate(), Ok(config));
    assert_eq!(
        ClusterConfig {
            voters: 3,
            ..config
        }
        .validate(),
        Err(ClusterConfigError::DevelopmentRequiresOneVoter)
    );
}

#[test]
fn production_rejects_an_even_quorum() {
    let config = ClusterConfig {
        mode: DeploymentMode::Production,
        voters: 4,
    };
    assert_eq!(
        config.validate(),
        Err(ClusterConfigError::ProductionRequiresOddQuorum)
    );
}
