use suraft::config::Config;
use suraft::config::ConfigError;

fn args(list: &[&str]) -> Vec<String> {
    let mut v: Vec<String> = Vec::new();
    for a in list {
        v.push((*a).to_string());
    }
    v
}

#[test]
fn test_config_defaults() {
    let cfg = Config::default();

    assert!(cfg.election_timeout_min >= 150);
    assert!(cfg.election_timeout_max <= 300);

    assert_eq!(50, cfg.heartbeat_interval);
}

#[test]
fn test_invalid_election_timeout_config_produces_expected_error() {
    let config = Config {
        election_timeout_min: 1000,
        election_timeout_max: 700,
        ..Default::default()
    };

    let res = config.validate();
    let err = res.unwrap_err();
    assert_eq!(
        err,
        ConfigError::ElectionTimeout {
            min: 1000,
            max: 700
        }
    );

    let config = Config {
        election_timeout_min: 1000,
        election_timeout_max: 2000,
        heartbeat_interval: 1500,
        ..Default::default()
    };

    let res = config.validate();
    let err = res.unwrap_err();
    assert_eq!(
        err,
        ConfigError::ElectionTimeoutLTHeartBeat {
            election_timeout_min: 1000,
            heartbeat_interval: 1500
        }
    );
}

#[test]
fn test_config_enable_tick() -> anyhow::Result<()> {
    let config = Config::build(&args(&["foo", "--enable-tick=false"])).unwrap();
    assert_eq!(false, config.enable_tick);

    let config = Config::build(&args(&["foo", "--enable-tick=true"])).unwrap();
    assert_eq!(true, config.enable_tick);

    let config = Config::build(&args(&["foo", "--enable-tick"])).unwrap();
    assert_eq!(true, config.enable_tick);

    let config = Config::build(&args(&["foo"])).unwrap();
    assert_eq!(true, config.enable_tick);

    Ok(())
}

#[test]
fn test_config_enable_heartbeat() -> anyhow::Result<()> {
    let config = Config::build(&args(&["foo", "--enable-heartbeat=false"])).unwrap();
    assert_eq!(false, config.enable_heartbeat);

    let config = Config::build(&args(&["foo", "--enable-heartbeat=true"])).unwrap();
    assert_eq!(true, config.enable_heartbeat);

    let config = Config::build(&args(&["foo", "--enable-heartbeat"])).unwrap();
    assert_eq!(true, config.enable_heartbeat);

    let config = Config::build(&args(&["foo"])).unwrap();
    assert_eq!(true, config.enable_heartbeat);

    Ok(())
}

#[test]
fn test_config_enable_elect() -> anyhow::Result<()> {
    let config = Config::build(&args(&["foo", "--enable-elect=false"])).unwrap();
    assert_eq!(false, config.enable_elect);

    let config = Config::build(&args(&["foo", "--enable-elect=true"])).unwrap();
    assert_eq!(true, config.enable_elect);

    let config = Config::build(&args(&["foo", "--enable-elect"])).unwrap();
    assert_eq!(true, config.enable_elect);

    let config = Config::build(&args(&["foo"])).unwrap();
    assert_eq!(true, config.enable_elect);

    Ok(())
}

#[test]
fn test_config_validate_ok() {
    let cfg = Config::default();
    assert!(cfg.validate().is_ok());
}

#[test]
fn test_config_unknown_args_ignored() {
    let config = Config::build(&args(&["foo", "--verbose", "bar"])).unwrap();
    assert_eq!(true, config.enable_tick);
    assert_eq!(true, config.enable_heartbeat);
    assert_eq!(true, config.enable_elect);
    assert_eq!(150, config.election_timeout_min);
    assert_eq!(300, config.election_timeout_max);
}

#[test]
fn test_config_last_flag_wins() {
    let config = Config::build(&args(&["foo", "--enable-tick=false", "--enable-tick=true"]))
        .unwrap();
    assert_eq!(true, config.enable_tick);
    let config = Config::build(&args(&["foo", "--enable-tick", "--enable-tick=false"])).unwrap();
    assert_eq!(false, config.enable_tick);
}
