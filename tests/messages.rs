use hsr_alert_bot::catalog::RedeemCode;
use hsr_alert_bot::notify::{
    alert_guild_invalid_info, alert_invalid_channel, alert_invalid_role, new_codes_message,
};
use hsr_alert_bot::reconcile::{GuildUpdate, InvalidInfo};
use hsr_alert_bot::registry::GuildInfo;

const TAIL: &str = "The guild will be disabled. Re-enable the guild using /enable";

#[test]
fn channel_advisories() {
    assert_eq!(
        alert_invalid_channel(Some(1203)),
        format!("The channel (id=1203) you set for the alerts is not valid anymore. Please set it again. {TAIL}")
    );
    assert_eq!(
        alert_invalid_channel(None),
        format!("No alert channel found. You might want to set the channel using: `/alert-channel`. {TAIL}")
    );
}

#[test]
fn role_advisory_and_combined() {
    let role = format!(
        "The role (id=0) you set for the alerts is not valid anymore. Please set it again. {TAIL}"
    );
    assert_eq!(alert_invalid_role(0), role);
    assert_eq!(alert_guild_invalid_info(&InvalidInfo::Role(0)), role);
    assert_eq!(
        alert_guild_invalid_info(&InvalidInfo::Both(Some(9), 0)),
        format!("{}\n{}", alert_invalid_channel(Some(9)), role)
    );
    assert_eq!(
        alert_guild_invalid_info(&InvalidInfo::Channel(None)),
        alert_invalid_channel(None)
    );
}

fn code(uid: u64, text: &str) -> RedeemCode {
    RedeemCode {
        uid,
        code: text.to_string(),
        valid: true,
        is_version_code: false,
    }
}

#[test]
fn notification_lists_each_code() {
    let g = GuildInfo {
        id: 1,
        alert_role: Some(42),
        alert_channel: Some(7),
        enabled: true,
        last_code: 0,
    };
    let update = GuildUpdate::for_guild(&g, vec![code(1, "ABC"), code(2, "XYZ")]);
    assert_eq!(
        new_codes_message(&update),
        "New Star Rail codes available <@&42>\n> [ABC](https://hsr.hoyoverse.com/gift?code=ABC)\n> [XYZ](https://hsr.hoyoverse.com/gift?code=XYZ)"
    );
    let plain = GuildUpdate::for_guild(&GuildInfo { alert_role: None, ..g }, vec![]);
    assert!(!plain.has_codes());
    assert_eq!(new_codes_message(&plain), "New Star Rail codes available");
}
