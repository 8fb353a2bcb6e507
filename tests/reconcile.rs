use hsr_alert_bot::config::Config;
use hsr_alert_bot::reconcile::{
    get_default_channel, validate_guild, GuildSnapshot, InvalidInfo, Reconciled,
};
use hsr_alert_bot::registry::GuildInfo;

fn batch(items: &[&str]) -> Vec<(String, bool)> {
    items.iter().map(|s| (s.to_string(), false)).collect()
}

fn snap(channels: &[u64], roles: &[u64], system: Option<u64>) -> GuildSnapshot {
    GuildSnapshot {
        channels: channels.to_vec(),
        roles: roles.to_vec(),
        system_channel: system,
    }
}

fn guild(channel: Option<u64>, role: Option<u64>) -> GuildInfo {
    GuildInfo {
        id: 1,
        alert_role: role,
        alert_channel: channel,
        enabled: true,
        last_code: 0,
    }
}

#[test]
fn delivery_then_commit_then_nothing_new() {
    let mut cfg = Config::new();
    cfg.update_on_join(9);
    cfg.set_guild_alert_channel(9, Some(100)).unwrap();
    cfg.ingest(&batch(&["ABC123", "XYZ789"]));
    cfg.ingest(&batch(&["ABC123"]));
    let s = snap(&[100, 101], &[], None);
    let update = match cfg.reconcile_guild(9, Some(&s)) {
        Reconciled::Deliver(u) => u,
        other => panic!("expected a delivery, got {:?}", other),
    };
    let codes: Vec<(u64, String)> = update.codes.iter().map(|c| (c.uid, c.code.clone())).collect();
    assert_eq!(codes, vec![(1, "ABC123".to_string())]);
    assert_eq!(update.id, 9);
    assert_eq!(update.chan, Some(100));
    assert!(update.has_codes());
    assert_eq!(cfg.guild(9).unwrap().last_code, 0);
    cfg.set_codes_sent(9, &update.codes).unwrap();
    assert_eq!(cfg.guild(9).unwrap().last_code, 1);
    assert!(matches!(cfg.reconcile_guild(9, Some(&s)), Reconciled::UpToDate));
    assert_eq!(cfg.guild(9).unwrap().last_code, 1);
}

#[test]
fn deleted_channel_disables_guild_once() {
    let mut cfg = Config::new();
    cfg.update_on_join(9);
    cfg.set_guild_alert_channel(9, Some(100)).unwrap();
    cfg.ingest(&batch(&["ABC123"]));
    let gone = snap(&[101, 102], &[], Some(102));
    match cfg.reconcile_guild(9, Some(&gone)) {
        Reconciled::Disabled { info, alert_channel } => {
            assert_eq!(info, InvalidInfo::Channel(Some(100)));
            assert_eq!(alert_channel, Some(102));
        }
        other => panic!("expected the guild to be disabled, got {:?}", other),
    }
    assert!(!cfg.guild(9).unwrap().enabled);
    let back = snap(&[100], &[], None);
    assert!(matches!(cfg.reconcile_guild(9, Some(&back)), Reconciled::Skipped));
    let pass = cfg.reconcile(&vec![(9, snap(&[100], &[], None))]);
    assert!(pass.is_empty());
    cfg.set_guild_state(9, true).unwrap();
    assert!(matches!(cfg.reconcile_guild(9, Some(&back)), Reconciled::Deliver(_)));
}

#[test]
fn unavailable_oracle_leaves_guild_enabled() {
    let mut cfg = Config::new();
    cfg.update_on_join(9);
    cfg.ingest(&batch(&["A"]));
    assert!(matches!(cfg.reconcile_guild(9, None), Reconciled::Skipped));
    assert!(cfg.guild(9).unwrap().enabled);
    assert!(matches!(cfg.reconcile_guild(8, None), Reconciled::Skipped));
}

#[test]
fn unset_channel_is_invalid() {
    let mut cfg = Config::new();
    cfg.update_on_join(3);
    match cfg.reconcile_guild(3, Some(&snap(&[], &[], None))) {
        Reconciled::Disabled { info, alert_channel } => {
            assert_eq!(info, InvalidInfo::Channel(None));
            assert_eq!(alert_channel, None);
        }
        other => panic!("expected the guild to be disabled, got {:?}", other),
    }
}

#[test]
fn validation_outcomes() {
    let s = snap(&[10, 11], &[20], None);
    assert_eq!(validate_guild(&guild(Some(10), None), &s), None);
    assert_eq!(validate_guild(&guild(Some(10), Some(20)), &s), None);
    assert_eq!(
        validate_guild(&guild(Some(10), Some(21)), &s),
        Some(InvalidInfo::Role(21))
    );
    assert_eq!(
        validate_guild(&guild(Some(12), None), &s),
        Some(InvalidInfo::Channel(Some(12)))
    );
    assert_eq!(
        validate_guild(&guild(None, Some(21)), &s),
        Some(InvalidInfo::Both(None, 21))
    );
    assert_eq!(
        validate_guild(&guild(Some(12), Some(21)), &s),
        Some(InvalidInfo::Both(Some(12), 21))
    );
}

#[test]
fn fallback_channel_choice() {
    assert_eq!(get_default_channel(&snap(&[5, 6], &[], Some(6))), Some(6));
    assert_eq!(get_default_channel(&snap(&[5, 6], &[], None)), Some(5));
    assert_eq!(get_default_channel(&snap(&[5, 6], &[], Some(7))), Some(5));
    assert_eq!(get_default_channel(&snap(&[], &[], Some(7))), None);
}

#[test]
fn new_guild_receives_whole_backlog() {
    let mut cfg = Config::new();
    cfg.ingest(&batch(&["A", "B", "C"]));
    cfg.update_on_join(4);
    cfg.set_guild_alert_channel(4, Some(1)).unwrap();
    match cfg.reconcile_guild(4, Some(&snap(&[1], &[], None))) {
        Reconciled::Deliver(u) => {
            let ids: Vec<u64> = u.codes.iter().map(|c| c.uid).collect();
            assert_eq!(ids, vec![1, 2, 3]);
        }
        other => panic!("expected a delivery, got {:?}", other),
    }
}

#[test]
fn full_pass_covers_every_guild() {
    let mut cfg = Config::new();
    cfg.update_guilds(&vec![1, 2, 3, 4]);
    cfg.set_guild_alert_channel(1, Some(10)).unwrap();
    cfg.set_guild_alert_channel(2, Some(20)).unwrap();
    cfg.set_guild_alert_channel(4, Some(40)).unwrap();
    cfg.set_guild_state(4, false).unwrap();
    let snaps = vec![
        (1, snap(&[10], &[], None)),
        (2, snap(&[21], &[], Some(21))),
        (4, snap(&[40], &[], None)),
    ];
    let out = cfg.diff_guild_codes(&batch(&["NEW1"]), &snaps);
    let mut ids: Vec<u64> = out.keys().copied().collect();
    ids.sort();
    assert_eq!(ids, vec![1, 2]);
    assert!(matches!(out[&1], Reconciled::Deliver(_)));
    assert!(matches!(out[&2], Reconciled::Disabled { .. }));
    assert!(!cfg.guild(2).unwrap().enabled);
    assert!(cfg.guild(3).unwrap().enabled);
    let again = cfg.reconcile(&snaps);
    let ids: Vec<u64> = again.iter().map(|(id, _)| *id).collect();
    assert_eq!(ids, vec![1]);
}
