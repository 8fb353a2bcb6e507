use hsr_alert_bot::config::Config;
use hsr_alert_bot::error::Error;
use hsr_alert_bot::registry::GuildInfo;

#[test]
fn joined_guild_gets_defaults_once() {
    let mut cfg = Config::new();
    assert!(cfg.update_on_join(10));
    assert_eq!(
        cfg.guild(10),
        Some(GuildInfo {
            id: 10,
            alert_role: None,
            alert_channel: None,
            enabled: true,
            last_code: 0
        })
    );
    assert_eq!(cfg.set_guild_alert_channel(10, Some(5)), Ok(()));
    assert_eq!(cfg.advance_cursor(10, 4), Ok(()));
    assert!(!cfg.update_on_join(10));
    let g = cfg.guild(10).unwrap();
    assert_eq!(g.alert_channel, Some(5));
    assert_eq!(g.last_code, 4);
    assert_eq!(cfg.guilds().len(), 1);
}

#[test]
fn update_guilds_adds_only_new_ids() {
    let mut cfg = Config::new();
    cfg.update_on_join(1);
    cfg.set_guild_state(1, false).unwrap();
    cfg.update_guilds(&vec![1, 2, 3, 2]);
    let ids: Vec<u64> = cfg.guilds().iter().map(|g| g.id).collect();
    assert_eq!(ids, vec![1, 2, 3]);
    assert!(!cfg.guild(1).unwrap().enabled);
    assert!(cfg.guild(3).unwrap().enabled);
}

#[test]
fn unknown_guild_is_not_found() {
    let mut cfg = Config::new();
    assert_eq!(cfg.set_guild_state(7, true), Err(Error::NotFound));
    assert_eq!(cfg.set_guild_alert_role(7, Some(1)), Err(Error::NotFound));
    assert_eq!(cfg.set_guild_alert_channel(7, None), Err(Error::NotFound));
    assert_eq!(cfg.advance_cursor(7, 1), Err(Error::NotFound));
    assert_eq!(cfg.set_codes_sent(7, &Vec::new()), Err(Error::NotFound));
    assert_eq!(cfg.guild_alert_role(7), None);
    assert_eq!(cfg.guild_alert_channel(7), None);
    assert_eq!(cfg.guild(7), None);
}

#[test]
fn cursor_never_moves_backwards() {
    let mut cfg = Config::new();
    cfg.update_on_join(1);
    let mut seen = Vec::new();
    for code in [5u64, 3, 5, 0, 7, 6] {
        cfg.advance_cursor(1, code).unwrap();
        seen.push(cfg.guild(1).unwrap().last_code);
    }
    assert_eq!(seen, vec![5, 5, 5, 5, 7, 7]);
}

#[test]
fn setters_change_only_their_field() {
    let mut cfg = Config::new();
    cfg.update_on_join(1);
    cfg.update_on_join(2);
    cfg.set_guild_alert_role(1, Some(77)).unwrap();
    cfg.set_guild_alert_channel(1, Some(88)).unwrap();
    cfg.set_guild_state(1, false).unwrap();
    assert_eq!(cfg.guild_alert_role(1), Some(77));
    assert_eq!(cfg.guild_alert_channel(1), Some(88));
    assert_eq!(
        cfg.guild(1),
        Some(GuildInfo {
            id: 1,
            alert_role: Some(77),
            alert_channel: Some(88),
            enabled: false,
            last_code: 0
        })
    );
    assert_eq!(cfg.guild_alert_role(2), None);
    cfg.set_guild_alert_role(1, None).unwrap();
    assert_eq!(cfg.guild_alert_role(1), None);
}

#[test]
fn list_enabled_skips_disabled_guilds() {
    let mut cfg = Config::new();
    cfg.update_guilds(&vec![1, 2, 3]);
    cfg.set_guild_state(2, false).unwrap();
    let ids: Vec<u64> = cfg.list_enabled().iter().map(|g| g.id).collect();
    assert_eq!(ids, vec![1, 3]);
}
