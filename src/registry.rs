//! The guild registry: each guild's settings and delivery cursor.
use vstd::prelude::*;

verus! {

/// A subscribed guild.
#[derive(Debug, Clone, Copy, PartialEq, Eq, Structural)]
pub struct GuildInfo {
    /// The guild's id.
    pub id: u64,
    /// The role to mention in alerts, if any.
    pub alert_role: Option<u64>,
    /// The channel that alerts go to, if any.
    pub alert_channel: Option<u64>,
    /// Whether the guild receives alerts.
    pub enabled: bool,
    /// The highest code identifier already delivered.
    pub last_code: u64,
}

/// The registry holds a guild with id `id`.
pub open spec fn has_guild(guilds: Seq<GuildInfo>, id: u64) -> bool {
    exists|i: int| 0 <= i < guilds.len() && #[trigger] guilds[i].id == id
}

/// The guild with id `id`, if the registry holds one.
pub open spec fn lookup(guilds: Seq<GuildInfo>, id: u64) -> Option<GuildInfo> {
    if has_guild(guilds, id) {
        Some(guilds[choose|i: int| 0 <= i < guilds.len() && #[trigger] guilds[i].id == id])
    } else {
        None
    }
}

/// `g` with its enabled flag set to `enabled`.
pub open spec fn with_enabled(g: GuildInfo, enabled: bool) -> GuildInfo {
    GuildInfo { enabled, ..g }
}

/// `g` with its alert role set to `role`.
pub open spec fn with_role(g: GuildInfo, role: Option<u64>) -> GuildInfo {
    GuildInfo { alert_role: role, ..g }
}

/// `g` with its alert channel set to `channel`.
pub open spec fn with_channel(g: GuildInfo, channel: Option<u64>) -> GuildInfo {
    GuildInfo { alert_channel: channel, ..g }
}

/// The cursor after advancing `cursor` to `code`: the greater of the two.
pub open spec fn advance(cursor: u64, code: u64) -> u64 {
    if code > cursor {
        code
    } else {
        cursor
    }
}

/// `g` with its cursor advanced to `code`.
pub open spec fn with_cursor(g: GuildInfo, code: u64) -> GuildInfo {
    GuildInfo { last_code: advance(g.last_code, code), ..g }
}

/// A newly known guild: enabled, cursor 0, no channel and no role.
pub open spec fn default_guild(id: u64) -> GuildInfo {
    GuildInfo { id, alert_role: None, alert_channel: None, enabled: true, last_code: 0 }
}

/// The registry with the guild `id` replaced by `f` of it.
pub open spec fn update_guild(
    guilds: Seq<GuildInfo>,
    id: u64,
    f: spec_fn(GuildInfo) -> GuildInfo,
) -> Seq<GuildInfo> {
    guilds.map_values(|g: GuildInfo| if g.id == id { f(g) } else { g })
}

/// The registry after `id` becomes known: a default entry is appended when
/// the id is new; an entry already there is kept as it is.
pub open spec fn ensure_guild(guilds: Seq<GuildInfo>, id: u64) -> Seq<GuildInfo> {
    if has_guild(guilds, id) {
        guilds
    } else {
        guilds.push(default_guild(id))
    }
}

/// The registry after each id of `ids` becomes known, in turn.
pub open spec fn ensure_guilds(guilds: Seq<GuildInfo>, ids: Seq<u64>) -> Seq<GuildInfo>
    decreases ids.len(),
{
    if ids.len() == 0 {
        guilds
    } else {
        ensure_guild(ensure_guilds(guilds, ids.drop_last()), ids.last())
    }
}

/// The enabled guilds, in registry order.
pub open spec fn enabled_guilds(guilds: Seq<GuildInfo>) -> Seq<GuildInfo>
    decreases guilds.len(),
{
    if guilds.len() == 0 {
        Seq::empty()
    } else if guilds.last().enabled {
        enabled_guilds(guilds.drop_last()).push(guilds.last())
    } else {
        enabled_guilds(guilds.drop_last())
    }
}

/// The cursor after advancing `cursor` to each of `codes` in turn.
pub open spec fn cursor_after(cursor: u64, codes: Seq<u64>) -> u64
    decreases codes.len(),
{
    if codes.len() == 0 {
        cursor
    } else {
        advance(cursor_after(cursor, codes.drop_last()), codes.last())
    }
}

/// Along any sequence of cursor advances the cursor never decreases, and an
/// advance to a code at or below the current cursor changes nothing.
pub proof fn lemma_cursor_monotonic(cursor: u64, codes: Seq<u64>)
    ensures
        forall|i: int, j: int|
            0 <= i <= j <= codes.len() ==> #[trigger] cursor_after(cursor, codes.take(i))
                <= #[trigger] cursor_after(cursor, codes.take(j)),
        forall|k: int|
            0 <= k < codes.len() && codes[k] <= cursor_after(cursor, codes.take(k))
                ==> #[trigger] cursor_after(cursor, codes.take(k + 1)) == cursor_after(
                cursor,
                codes.take(k),
            ),
{
    assert forall|k: int| 0 <= k < codes.len() implies #[trigger] cursor_after(
        cursor,
        codes.take(k + 1),
    ) == advance(cursor_after(cursor, codes.take(k)), codes[k]) by {
        assert(codes.take(k + 1).drop_last() =~= codes.take(k));
    }
    assert forall|i: int, j: int| 0 <= i <= j <= codes.len() implies #[trigger] cursor_after(
        cursor,
        codes.take(i),
    ) <= #[trigger] cursor_after(cursor, codes.take(j)) by {
        lemma_cursor_steps(cursor, codes, i, j);
    }
}

proof fn lemma_cursor_steps(cursor: u64, codes: Seq<u64>, i: int, j: int)
    requires
        0 <= i <= j <= codes.len(),
        forall|k: int| 0 <= k < codes.len() ==> #[trigger] cursor_after(
            cursor,
            codes.take(k + 1),
        ) == advance(cursor_after(cursor, codes.take(k)), codes[k]),
    ensures
        cursor_after(cursor, codes.take(i)) <= cursor_after(cursor, codes.take(j)),
    decreases j - i,
{
    if i < j {
        lemma_cursor_steps(cursor, codes, i, j - 1);
        let k = j - 1;
        assert(cursor_after(cursor, codes.take(k + 1)) == advance(
            cursor_after(cursor, codes.take(k)),
            codes[k],
        ));
    }
}

/// With unique ids, the guild found at position `i` is the one looked up.
pub proof fn lemma_lookup_at(guilds: Seq<GuildInfo>, id: u64, i: int)
    requires
        0 <= i < guilds.len(),
        guilds[i].id == id,
        forall|a: int, b: int|
            0 <= a < guilds.len() && 0 <= b < guilds.len() && a != b ==> #[trigger] guilds[a].id
                != #[trigger] guilds[b].id,
    ensures
        lookup(guilds, id) == Some(guilds[i]),
{
    assert(has_guild(guilds, id));
}

/// With unique ids, updating guild `id` changes position `i` alone.
pub proof fn lemma_update_at(
    guilds: Seq<GuildInfo>,
    id: u64,
    i: int,
    f: spec_fn(GuildInfo) -> GuildInfo,
)
    requires
        0 <= i < guilds.len(),
        guilds[i].id == id,
        forall|a: int, b: int|
            0 <= a < guilds.len() && 0 <= b < guilds.len() && a != b ==> #[trigger] guilds[a].id
                != #[trigger] guilds[b].id,
    ensures
        update_guild(guilds, id, f) == guilds.update(i, f(guilds[i])),
{
    assert(update_guild(guilds, id, f) =~= guilds.update(i, f(guilds[i])));
}

/// Updating a guild that the registry does not hold changes nothing.
pub proof fn lemma_update_missing(
    guilds: Seq<GuildInfo>,
    id: u64,
    f: spec_fn(GuildInfo) -> GuildInfo,
)
    requires
        !has_guild(guilds, id),
    ensures
        update_guild(guilds, id, f) == guilds,
{
    assert forall|k: int| 0 <= k < guilds.len() implies guilds[k].id != id by {
        if guilds[k].id == id {
            assert(has_guild(guilds, id));
        }
    }
    assert(update_guild(guilds, id, f) =~= guilds);
}

/// An update that keeps ids keeps them unique.
pub proof fn lemma_update_unique(
    guilds: Seq<GuildInfo>,
    id: u64,
    f: spec_fn(GuildInfo) -> GuildInfo,
)
    requires
        forall|a: int, b: int|
            0 <= a < guilds.len() && 0 <= b < guilds.len() && a != b ==> #[trigger] guilds[a].id
                != #[trigger] guilds[b].id,
        forall|x: GuildInfo| #[trigger] f(x).id == x.id,
    ensures
        forall|a: int, b: int|
            0 <= a < guilds.len() && 0 <= b < guilds.len() && a != b ==> #[trigger] update_guild(
                guilds,
                id,
                f,
            )[a].id != #[trigger] update_guild(guilds, id, f)[b].id,
        update_guild(guilds, id, f).len() == guilds.len(),
{
    let u = update_guild(guilds, id, f);
    assert forall|a: int| 0 <= a < guilds.len() implies #[trigger] u[a].id == guilds[a].id by {
        if guilds[a].id == id {
            assert(u[a] == f(guilds[a]));
        }
    }
}

/// An update of guild `id` leaves every other guild as it is.
pub proof fn lemma_update_other(
    guilds: Seq<GuildInfo>,
    id: u64,
    f: spec_fn(GuildInfo) -> GuildInfo,
    other: u64,
)
    requires
        other != id,
        forall|a: int, b: int|
            0 <= a < guilds.len() && 0 <= b < guilds.len() && a != b ==> #[trigger] guilds[a].id
                != #[trigger] guilds[b].id,
        forall|x: GuildInfo| #[trigger] f(x).id == x.id,
    ensures
        lookup(update_guild(guilds, id, f), other) == lookup(guilds, other),
{
    let u = update_guild(guilds, id, f);
    lemma_update_unique(guilds, id, f);
    if has_guild(guilds, other) {
        let i = choose|i: int| 0 <= i < guilds.len() && #[trigger] guilds[i].id == other;
        lemma_lookup_at(guilds, other, i);
        assert(u[i] == guilds[i]);
        lemma_lookup_at(u, other, i);
    } else {
        assert forall|k: int| 0 <= k < u.len() implies u[k].id != other by {
            if guilds[k].id == id {
                assert(u[k] == f(guilds[k]));
            }
            if u[k].id == other {
                assert(guilds[k].id == other);
            }
        }
    }
}

} // verus!
