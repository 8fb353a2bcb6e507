//! The texts sent to guilds: advisories about stale settings, and the
//! notification of new codes.
use vstd::prelude::*;

use crate::catalog::{codes_view, CodeView};
use crate::reconcile::{GuildUpdate, InvalidInfo};
use crate::text::{decimal, u64_text};

verus! {

/// The advisory about the alert channel `chan`.
pub open spec fn channel_alert_text(chan: Option<u64>) -> Seq<char> {
    match chan {
        Some(id) => "The channel (id="@ + decimal(id as nat)
            + ") you set for the alerts is not valid anymore. Please set it again. The guild will be disabled. Re-enable the guild using /enable"@,
        None => "No alert channel found. You might want to set the channel using: `/alert-channel`. The guild will be disabled. Re-enable the guild using /enable"@,
    }
}

/// The advisory about the alert role `role`.
pub open spec fn role_alert_text(role: u64) -> Seq<char> {
    "The role (id="@ + decimal(role as nat)
        + ") you set for the alerts is not valid anymore. Please set it again. The guild will be disabled. Re-enable the guild using /enable"@
}

/// The one advisory sent for `info`: both texts, a line each, when both
/// settings are stale.
pub open spec fn advisory_text(info: InvalidInfo) -> Seq<char> {
    match info {
        InvalidInfo::Channel(chan) => channel_alert_text(chan),
        InvalidInfo::Role(role) => role_alert_text(role),
        InvalidInfo::Both(chan, role) => channel_alert_text(chan) + "\n"@ + role_alert_text(role),
    }
}

/// The first line of a notification, mentioning `role` when there is one.
pub open spec fn header_text(role: Option<u64>) -> Seq<char> {
    match role {
        Some(r) => "New Star Rail codes available <@&"@ + decimal(r as nat) + ">"@,
        None => "New Star Rail codes available"@,
    }
}

/// The line of a notification that offers code `t`.
pub open spec fn code_line(t: Seq<char>) -> Seq<char> {
    "\n> ["@ + t + "](https://hsr.hoyoverse.com/gift?code="@ + t + ")"@
}

/// The lines that offer each of `codes`, in order.
pub open spec fn code_lines(codes: Seq<CodeView>) -> Seq<char>
    decreases codes.len(),
{
    if codes.len() == 0 {
        Seq::empty()
    } else {
        code_lines(codes.drop_last()) + code_line(codes.last().text)
    }
}

/// The notification of `codes`, mentioning `role`.
pub open spec fn notification_text(role: Option<u64>, codes: Seq<CodeView>) -> Seq<char> {
    header_text(role) + code_lines(codes)
}

/// The advisory about the alert channel `chan`.
pub fn alert_invalid_channel(chan: Option<u64>) -> (r: String)
    ensures
        r@ == channel_alert_text(chan),
{
    match chan {
        Some(id) => {
            let mut s = String::from_str("The channel (id=");
            let digits = u64_text(id);
            s.append(digits.as_str());
            s.append(
                ") you set for the alerts is not valid anymore. Please set it again. The guild will be disabled. Re-enable the guild using /enable",
            );
            s
        },
        None => String::from_str(
            "No alert channel found. You might want to set the channel using: `/alert-channel`. The guild will be disabled. Re-enable the guild using /enable",
        ),
    }
}

/// The advisory about the alert role `role`.
pub fn alert_invalid_role(role: u64) -> (r: String)
    ensures
        r@ == role_alert_text(role),
{
    let mut s = String::from_str("The role (id=");
    let digits = u64_text(role);
    s.append(digits.as_str());
    s.append(
        ") you set for the alerts is not valid anymore. Please set it again. The guild will be disabled. Re-enable the guild using /enable",
    );
    s
}

/// The single advisory that a guild receives before it is disabled, naming
/// each stale setting.
pub fn alert_guild_invalid_info(info: &InvalidInfo) -> (r: String)
    ensures
        r@ == advisory_text(*info),
{
    match info {
        InvalidInfo::Channel(chan) => alert_invalid_channel(*chan),
        InvalidInfo::Role(role) => alert_invalid_role(*role),
        InvalidInfo::Both(chan, role) => {
            let mut s = alert_invalid_channel(*chan);
            s.append("\n");
            let r = alert_invalid_role(*role);
            s.append(r.as_str());
            s
        },
    }
}

/// The notification of the codes of `update`: a header, mentioning the alert
/// role when there is one, then one line per code with its redemption link.
pub fn new_codes_message(update: &GuildUpdate) -> (r: String)
    ensures
        r@ == notification_text(update.role, codes_view(update.codes@)),
{
    let mut s = match update.role {
        Some(role) => {
            let mut h = String::from_str("New Star Rail codes available <@&");
            let digits = u64_text(role);
            h.append(digits.as_str());
            h.append(">");
            h
        },
        None => String::from_str("New Star Rail codes available"),
    };
    let ghost header = s@;
    let mut i: usize = 0;
    while i < update.codes.len()
        invariant
            i <= update.codes@.len(),
            header == header_text(update.role),
            s@ == header + code_lines(codes_view(update.codes@).take(i as int)),
        decreases update.codes@.len() - i,
    {
        let code = &update.codes[i].code;
        proof {
            assert(codes_view(update.codes@).take(i as int + 1).drop_last() =~= codes_view(
                update.codes@,
            ).take(i as int));
        }
        s.append("\n> [");
        s.append(code.as_str());
        s.append("](https://hsr.hoyoverse.com/gift?code=");
        s.append(code.as_str());
        s.append(")");
        assert(s@ =~= header + code_lines(codes_view(update.codes@).take(i as int + 1)));
        i = i + 1;
    }
    assert(codes_view(update.codes@).take(update.codes@.len() as int) =~= codes_view(
        update.codes@,
    ));
    s
}

} // verus!
