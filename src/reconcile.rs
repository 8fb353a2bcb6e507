//! Per-guild reconciliation: validating a guild's settings against what the
//! guild really holds, disabling it when they went stale, and computing the
//! codes it has not received yet.
use std::collections::HashMap;

use vstd::prelude::*;

use crate::catalog::{batch_view, codes_view, delta, ingested, max_uid, CodeView, RedeemCode};
use crate::config::{Config, ConfigView};
use crate::error::Error;
use crate::registry::{
    lemma_lookup_at, lemma_update_at, lemma_update_other, lemma_update_unique, lookup, update_guild,
    with_cursor, with_enabled, GuildInfo,
};

verus! {

/// What the guild itself holds, as the external system answered for it.
#[derive(Debug)]
pub struct GuildSnapshot {
    /// The ids of the guild's channels, in the order the system lists them.
    pub channels: Vec<u64>,
    /// The ids of the guild's roles.
    pub roles: Vec<u64>,
    /// The guild's system channel, if it has one.
    pub system_channel: Option<u64>,
}

/// What a [`GuildSnapshot`] holds, as a mathematical value.
pub struct SnapshotView {
    pub channels: Seq<u64>,
    pub roles: Seq<u64>,
    pub system_channel: Option<u64>,
}

impl View for GuildSnapshot {
    type V = SnapshotView;

    open spec fn view(&self) -> SnapshotView {
        SnapshotView {
            channels: self.channels@,
            roles: self.roles@,
            system_channel: self.system_channel,
        }
    }
}

/// Which of a guild's settings no longer resolve.
#[derive(Debug, Clone, Copy, PartialEq, Eq, Structural)]
pub enum InvalidInfo {
    /// The alert channel is unset or gone; holds the configured channel.
    Channel(Option<u64>),
    /// The alert role is gone; holds the configured role.
    Role(u64),
    /// Both of the above.
    Both(Option<u64>, u64),
}

/// The codes due to one guild, with where and whom to notify.
#[derive(Debug)]
pub struct GuildUpdate {
    pub id: u64,
    pub role: Option<u64>,
    pub chan: Option<u64>,
    pub codes: Vec<RedeemCode>,
    pub enabled: bool,
}

/// What a [`GuildUpdate`] holds, as a mathematical value.
pub struct UpdateView {
    pub id: u64,
    pub role: Option<u64>,
    pub chan: Option<u64>,
    pub codes: Seq<CodeView>,
    pub enabled: bool,
}

impl View for GuildUpdate {
    type V = UpdateView;

    open spec fn view(&self) -> UpdateView {
        UpdateView {
            id: self.id,
            role: self.role,
            chan: self.chan,
            codes: codes_view(self.codes@),
            enabled: self.enabled,
        }
    }
}

impl GuildUpdate {
    /// The update that brings `codes` to `guild`.
    pub fn for_guild(guild: &GuildInfo, codes: Vec<RedeemCode>) -> (r: GuildUpdate)
        ensures
            r@ == (UpdateView {
                id: guild.id,
                role: guild.alert_role,
                chan: guild.alert_channel,
                codes: codes_view(codes@),
                enabled: guild.enabled,
            }),
    {
        GuildUpdate {
            id: guild.id,
            role: guild.alert_role,
            chan: guild.alert_channel,
            codes,
            enabled: guild.enabled,
        }
    }

    /// Whether the update holds any code.
    pub fn has_codes(&self) -> (r: bool)
        ensures
            r == (self@.codes.len() > 0),
    {
        self.codes.len() > 0
    }
}

/// The outcome of reconciling one guild.
#[derive(Debug)]
pub enum Reconciled {
    /// Nothing was done: the guild is unknown or disabled, or the external
    /// system could not be asked about it.
    Skipped,
    /// The guild's settings went stale and the guild is now disabled; an
    /// advisory is due on the fallback channel, if the guild has one.
    Disabled { info: InvalidInfo, alert_channel: Option<u64> },
    /// The guild is valid and has received every valid code.
    UpToDate,
    /// The guild is valid and these codes are due to it.
    Deliver(GuildUpdate),
}

/// What a [`Reconciled`] holds, as a mathematical value.
pub enum ReconciledView {
    Skipped,
    Disabled { info: InvalidInfo, alert_channel: Option<u64> },
    UpToDate,
    Deliver(UpdateView),
}

impl View for Reconciled {
    type V = ReconciledView;

    open spec fn view(&self) -> ReconciledView {
        match self {
            Reconciled::Skipped => ReconciledView::Skipped,
            Reconciled::Disabled { info, alert_channel } => ReconciledView::Disabled {
                info: *info,
                alert_channel: *alert_channel,
            },
            Reconciled::UpToDate => ReconciledView::UpToDate,
            Reconciled::Deliver(u) => ReconciledView::Deliver(u@),
        }
    }
}

/// The view of an optional snapshot.
pub open spec fn snapshot_view(s: Option<&GuildSnapshot>) -> Option<SnapshotView> {
    match s {
        Some(x) => Some(x@),
        None => None,
    }
}

/// The alert channel is set and the guild still has it.
pub open spec fn channel_valid(g: GuildInfo, s: SnapshotView) -> bool {
    g.alert_channel is Some && s.channels.contains(g.alert_channel->Some_0)
}

/// The alert role is unset, or the guild still has it.
pub open spec fn role_valid(g: GuildInfo, s: SnapshotView) -> bool {
    g.alert_role is None || s.roles.contains(g.alert_role->Some_0)
}

/// Which settings of `g` are stale against `s`; `None` when both are valid.
pub open spec fn validation(g: GuildInfo, s: SnapshotView) -> Option<InvalidInfo> {
    if !channel_valid(g, s) && !role_valid(g, s) {
        Some(InvalidInfo::Both(g.alert_channel, g.alert_role->Some_0))
    } else if !channel_valid(g, s) {
        Some(InvalidInfo::Channel(g.alert_channel))
    } else if !role_valid(g, s) {
        Some(InvalidInfo::Role(g.alert_role->Some_0))
    } else {
        None
    }
}

/// The channel for advisories: the system channel when the guild lists it,
/// else the first channel listed, else none.
pub open spec fn fallback_channel(s: SnapshotView) -> Option<u64> {
    if s.system_channel is Some && s.channels.contains(s.system_channel->Some_0) {
        s.system_channel
    } else if s.channels.len() > 0 {
        Some(s.channels[0])
    } else {
        None
    }
}

/// The outcome of reconciling guild `id` of `s` against `snap` (`None`: the
/// external system could not be asked).
pub open spec fn outcome(s: ConfigView, id: u64, snap: Option<SnapshotView>) -> ReconciledView {
    match lookup(s.guilds, id) {
        None => ReconciledView::Skipped,
        Some(g) => if !g.enabled || snap is None {
            ReconciledView::Skipped
        } else {
            match validation(g, snap->Some_0) {
                Some(info) => ReconciledView::Disabled {
                    info,
                    alert_channel: fallback_channel(snap->Some_0),
                },
                None => {
                    let d = delta(s.codes, g.last_code);
                    if d.len() == 0 {
                        ReconciledView::UpToDate
                    } else {
                        ReconciledView::Deliver(
                            UpdateView {
                                id,
                                role: g.alert_role,
                                chan: g.alert_channel,
                                codes: d,
                                enabled: true,
                            },
                        )
                    }
                },
            }
        },
    }
}

/// The store after reconciling guild `id` of `s` against `snap`: the guild
/// is disabled when its settings went stale; nothing else changes.
pub open spec fn reconciled(s: ConfigView, id: u64, snap: Option<SnapshotView>) -> ConfigView {
    if outcome(s, id, snap) is Disabled {
        ConfigView {
            codes: s.codes,
            guilds: update_guild(s.guilds, id, |g: GuildInfo| with_enabled(g, false)),
        }
    } else {
        s
    }
}

/// Whether `ids` holds `id`.
fn contains_id(ids: &Vec<u64>, id: u64) -> (r: bool)
    ensures
        r == ids@.contains(id),
{
    let mut i: usize = 0;
    while i < ids.len()
        invariant
            i <= ids@.len(),
            forall|k: int| 0 <= k < i ==> ids@[k] != id,
        decreases ids@.len() - i,
    {
        if ids[i] == id {
            return true;
        }
        i = i + 1;
    }
    false
}

/// Checks the alert channel and role of `guild` against what the guild holds.
pub fn validate_guild(guild: &GuildInfo, snapshot: &GuildSnapshot) -> (r: Option<InvalidInfo>)
    ensures
        r == validation(*guild, snapshot@),
{
    let channel_ok = match guild.alert_channel {
        Some(c) => contains_id(&snapshot.channels, c),
        None => false,
    };
    let role_ok = match guild.alert_role {
        Some(role) => contains_id(&snapshot.roles, role),
        None => true,
    };
    if !channel_ok && !role_ok {
        match guild.alert_role {
            Some(role) => Some(InvalidInfo::Both(guild.alert_channel, role)),
            None => None,
        }
    } else if !channel_ok {
        Some(InvalidInfo::Channel(guild.alert_channel))
    } else if !role_ok {
        match guild.alert_role {
            Some(role) => Some(InvalidInfo::Role(role)),
            None => None,
        }
    } else {
        None
    }
}

/// The channel where advisories for the guild go.
pub fn get_default_channel(snapshot: &GuildSnapshot) -> (r: Option<u64>)
    ensures
        r == fallback_channel(snapshot@),
{
    if let Some(c) = snapshot.system_channel {
        if contains_id(&snapshot.channels, c) {
            return Some(c);
        }
    }
    if snapshot.channels.len() > 0 {
        Some(snapshot.channels[0])
    } else {
        None
    }
}

impl Config {
    /// Reconciles the guild `guild`, reading its settings as they are now.
    /// `snapshot` is what the guild holds, or `None` when the external system
    /// could not be asked: the guild is then left as it is. A guild whose
    /// channel or role went stale is disabled and gets no codes this time; a
    /// valid one gets the valid codes past its cursor, which does not move.
    pub fn reconcile_guild(&mut self, guild: u64, snapshot: Option<&GuildSnapshot>) -> (r:
        Reconciled)
        requires
            old(self)@.wf(),
        ensures
            final(self)@.wf(),
            r@ == outcome(old(self)@, guild, snapshot_view(snapshot)),
            final(self)@ == reconciled(old(self)@, guild, snapshot_view(snapshot)),
    {
        let ghost snap = snapshot_view(snapshot);
        let g = match self.guild(guild) {
            Some(g) => g,
            None => return Reconciled::Skipped,
        };
        if !g.enabled {
            return Reconciled::Skipped;
        }
        let s = match snapshot {
            Some(s) => s,
            None => return Reconciled::Skipped,
        };
        match validate_guild(&g, s) {
            Some(info) => {
                let alert_channel = get_default_channel(s);
                let _ = self.set_guild_state(guild, false);
                proof {
                    assert(outcome(old(self)@, guild, snap) is Disabled);
                    assert(self@ =~= reconciled(old(self)@, guild, snap));
                }
                Reconciled::Disabled { info, alert_channel }
            },
            None => {
                let codes = self.codes_after(g.last_code, true);
                if codes.len() == 0 {
                    Reconciled::UpToDate
                } else {
                    Reconciled::Deliver(GuildUpdate::for_guild(&g, codes))
                }
            },
        }
    }
}

/// A guild whose alert channel does not resolve is disabled by one
/// reconciliation, with an advisory due. From then on, until it is enabled
/// again, it gets no codes: reconciling it is skipped and changes nothing,
/// whatever the guild then holds, and reconciling another guild leaves it as
/// it is.
pub proof fn lemma_disable_on_invalid(
    s: ConfigView,
    id: u64,
    snap: SnapshotView,
    later: Option<SnapshotView>,
    other: u64,
)
    requires
        s.wf(),
        lookup(s.guilds, id) is Some,
        lookup(s.guilds, id)->Some_0.enabled,
        !channel_valid(lookup(s.guilds, id)->Some_0, snap),
        other != id,
    ensures
        outcome(s, id, Some(snap)) is Disabled,
        lookup(reconciled(s, id, Some(snap)).guilds, id) is Some,
        !lookup(reconciled(s, id, Some(snap)).guilds, id)->Some_0.enabled,
        outcome(reconciled(s, id, Some(snap)), id, later) is Skipped,
        reconciled(reconciled(s, id, Some(snap)), id, later) == reconciled(s, id, Some(snap)),
        lookup(reconciled(reconciled(s, id, Some(snap)), other, later).guilds, id) == lookup(
            reconciled(s, id, Some(snap)).guilds,
            id,
        ),
{
    let f = |g: GuildInfo| with_enabled(g, false);
    let s1 = reconciled(s, id, Some(snap));
    let i = choose|i: int| 0 <= i < s.guilds.len() && #[trigger] s.guilds[i].id == id;
    lemma_lookup_at(s.guilds, id, i);
    lemma_update_at(s.guilds, id, i, f);
    lemma_update_unique(s.guilds, id, f);
    lemma_lookup_at(s1.guilds, id, i);
    let s2 = reconciled(s1, other, later);
    if outcome(s1, other, later) is Disabled {
        lemma_update_other(s1.guilds, other, f, id);
    }
}

impl Config {
    /// The greatest identifier among `codes`, or 0 for none: advancing a
    /// cursor to 0 never moves it.
    pub fn last_code(codes: &Vec<RedeemCode>) -> (r: u64)
        ensures
            r == max_uid(codes_view(codes@)),
    {
        let mut best: u64 = 0;
        let mut i: usize = 0;
        while i < codes.len()
            invariant
                i <= codes@.len(),
                best == max_uid(codes_view(codes@).take(i as int)),
            decreases codes@.len() - i,
        {
            assert(codes_view(codes@).take(i as int + 1).drop_last() =~= codes_view(codes@).take(
                i as int,
            ));
            if codes[i].uid > best {
                best = codes[i].uid;
            }
            i = i + 1;
        }
        assert(codes_view(codes@).take(codes@.len() as int) =~= codes_view(codes@));
        best
    }

    /// Records that `codes` reached the guild `guild`: its cursor advances to
    /// the greatest of their identifiers (never backwards). Fails with
    /// `NotFound` when the registry does not hold the guild.
    pub fn set_codes_sent(&mut self, guild: u64, codes: &Vec<RedeemCode>) -> (r: Result<(), Error>)
        requires
            old(self)@.wf(),
        ensures
            final(self)@.wf(),
            final(self)@.codes == old(self)@.codes,
            final(self)@.guilds == update_guild(
                old(self)@.guilds,
                guild,
                |g: GuildInfo| with_cursor(g, max_uid(codes_view(codes@))),
            ),
            r is Err <==> lookup(old(self)@.guilds, guild) is None,
            r is Err ==> r->Err_0 == Error::NotFound,
    {
        let highest = Config::last_code(codes);
        self.advance_cursor(guild, highest)
    }
}

/// The snapshot listed first for guild `id`, if any.
pub open spec fn snapshot_for(snaps: Seq<(u64, GuildSnapshot)>, id: u64) -> Option<SnapshotView>
    decreases snaps.len(),
{
    if snaps.len() == 0 {
        None
    } else if snaps[0].0 == id {
        Some(snaps[0].1@)
    } else {
        snapshot_for(snaps.drop_first(), id)
    }
}

/// The store after reconciling each guild of `ids` in turn.
pub open spec fn reconciled_all(
    s: ConfigView,
    ids: Seq<u64>,
    snaps: Seq<(u64, GuildSnapshot)>,
) -> ConfigView
    decreases ids.len(),
{
    if ids.len() == 0 {
        s
    } else {
        let prev = reconciled_all(s, ids.drop_last(), snaps);
        reconciled(prev, ids.last(), snapshot_for(snaps, ids.last()))
    }
}

/// The outcomes of reconciling each guild of `ids` in turn, skipped guilds
/// left out.
pub open spec fn outcomes_all(
    s: ConfigView,
    ids: Seq<u64>,
    snaps: Seq<(u64, GuildSnapshot)>,
) -> Seq<(u64, ReconciledView)>
    decreases ids.len(),
{
    if ids.len() == 0 {
        Seq::empty()
    } else {
        let prev = reconciled_all(s, ids.drop_last(), snaps);
        let o = outcome(prev, ids.last(), snapshot_for(snaps, ids.last()));
        if o is Skipped {
            outcomes_all(s, ids.drop_last(), snaps)
        } else {
            outcomes_all(s, ids.drop_last(), snaps).push((ids.last(), o))
        }
    }
}

/// The outcomes keyed by guild id; a later entry for an id replaces an
/// earlier one.
pub open spec fn outcome_map(outs: Seq<(u64, ReconciledView)>) -> Map<u64, ReconciledView>
    decreases outs.len(),
{
    if outs.len() == 0 {
        Map::empty()
    } else {
        outcome_map(outs.drop_last()).insert(outs.last().0, outs.last().1)
    }
}

/// The ids of `guilds`, in order.
pub open spec fn guild_ids(guilds: Seq<GuildInfo>) -> Seq<u64> {
    guilds.map_values(|g: GuildInfo| g.id)
}

/// The views of a sequence of outcomes.
pub open spec fn outcomes_view(r: Seq<(u64, Reconciled)>) -> Seq<(u64, ReconciledView)> {
    r.map_values(|p: (u64, Reconciled)| (p.0, p.1@))
}

/// The snapshot listed first for guild `id` in `snaps`.
fn find_snapshot(snaps: &Vec<(u64, GuildSnapshot)>, id: u64) -> (r: Option<&GuildSnapshot>)
    ensures
        snapshot_view(r) == snapshot_for(snaps@, id),
{
    let mut i: usize = 0;
    assert(snaps@.skip(0) =~= snaps@);
    while i < snaps.len()
        invariant
            i <= snaps@.len(),
            snapshot_for(snaps@, id) == snapshot_for(snaps@.skip(i as int), id),
        decreases snaps@.len() - i,
    {
        assert(snaps@.skip(i as int)[0] == snaps@[i as int]);
        if snaps[i].0 == id {
            return Some(&snaps[i].1);
        }
        assert(snaps@.skip(i as int).drop_first() =~= snaps@.skip(i as int + 1));
        i = i + 1;
    }
    None
}

impl Config {
    /// One reconciliation pass over the registry: every guild, in registry
    /// order, is reconciled against the snapshot listed for it in
    /// `snapshots` (a guild with none is left as it is). Returns the outcome
    /// of each guild that was not skipped.
    pub fn reconcile(&mut self, snapshots: &Vec<(u64, GuildSnapshot)>) -> (r: Vec<
        (u64, Reconciled),
    >)
        requires
            old(self)@.wf(),
        ensures
            final(self)@.wf(),
            final(self)@ == reconciled_all(old(self)@, guild_ids(old(self)@.guilds), snapshots@),
            outcomes_view(r@) == outcomes_all(old(self)@, guild_ids(old(self)@.guilds), snapshots@),
    {
        let ghost start = self@;
        let ghost ids = guild_ids(start.guilds);
        let mut ids_now: Vec<u64> = Vec::new();
        let mut k: usize = 0;
        while k < self.guilds().len()
            invariant
                k <= self@.guilds.len(),
                self@ == start,
                ids == guild_ids(start.guilds),
                ids_now@ == ids.take(k as int),
            decreases self@.guilds.len() - k,
        {
            ids_now.push(self.guilds()[k].id);
            assert(ids_now@ =~= ids.take(k as int + 1));
            k = k + 1;
        }
        assert(ids.take(ids.len() as int) =~= ids);
        let mut out: Vec<(u64, Reconciled)> = Vec::new();
        let mut i: usize = 0;
        while i < ids_now.len()
            invariant
                i <= ids_now@.len(),
                ids_now@ == ids,
                self@.wf(),
                self@ == reconciled_all(start, ids.take(i as int), snapshots@),
                outcomes_view(out@) == outcomes_all(start, ids.take(i as int), snapshots@),
            decreases ids_now@.len() - i,
        {
            let id = ids_now[i];
            assert(ids.take(i as int + 1).drop_last() =~= ids.take(i as int));
            let snap = find_snapshot(snapshots, id);
            let o = self.reconcile_guild(id, snap);
            if let Reconciled::Skipped = o {
            } else {
                out.push((id, o));
                assert(outcomes_view(out@) =~= outcomes_view(out@).drop_last().push((id, o@)));
            }
            i = i + 1;
        }
        assert(ids.take(ids.len() as int) =~= ids);
        out
    }

    /// One full cycle on a freshly observed batch: ingests it, then runs one
    /// reconciliation pass against `snapshots`. Returns, keyed by guild id,
    /// the outcome of each guild that was not skipped.
    pub fn diff_guild_codes(
        &mut self,
        new_codes: &Vec<(String, bool)>,
        snapshots: &Vec<(u64, GuildSnapshot)>,
    ) -> (r: HashMap<u64, Reconciled>)
        requires
            old(self)@.wf(),
        ensures
            final(self)@.wf(),
            ({
                let ing = ConfigView {
                    codes: ingested(old(self)@.codes, batch_view(new_codes@)),
                    guilds: old(self)@.guilds,
                };
                &&& final(self)@ == reconciled_all(ing, guild_ids(ing.guilds), snapshots@)
                &&& r@.map_values(|o: Reconciled| o@) == outcome_map(
                    outcomes_all(ing, guild_ids(ing.guilds), snapshots@),
                )
            }),
    {
        broadcast use vstd::std_specs::hash::group_hash_axioms;

        self.ingest(new_codes);
        let mut outs = self.reconcile(snapshots);
        let ghost all = outcomes_view(outs@);
        let mut map: HashMap<u64, Reconciled> = HashMap::new();
        let n: usize = outs.len();
        let mut i: usize = 0;
        assert(all.take(0) =~= Seq::<(u64, ReconciledView)>::empty());
        assert(map@.map_values(|o: Reconciled| o@) =~= Map::<u64, ReconciledView>::empty());
        while outs.len() > 0
            invariant
                all.len() == n,
                i <= n,
                outs@.len() == n - i,
                outcomes_view(outs@) == all.skip(i as int),
                map@.map_values(|o: Reconciled| o@) == outcome_map(all.take(i as int)),
            decreases outs@.len(),
        {
            assert(all.skip(i as int)[0] == all[i as int]);
            let ghost before = map@;
            let ghost ob = outs@;
            let (id, o) = outs.remove(0);
            assert(outs@ =~= ob.subrange(1, ob.len() as int));
            assert forall|k: int| 0 <= k < outs@.len() implies #[trigger] outcomes_view(outs@)[k]
                == all.skip(i as int + 1)[k] by {
                assert(outs@[k] == ob[k + 1]);
                assert(outcomes_view(ob)[k + 1] == all.skip(i as int)[k + 1]);
            }
            assert(outcomes_view(outs@) =~= all.skip(i as int + 1));
            map.insert(id, o);
            assert(all.take(i as int + 1).drop_last() =~= all.take(i as int));
            assert(map@.map_values(|o: Reconciled| o@) =~= before.map_values(
                |o: Reconciled| o@,
            ).insert(id, o@));
            i = i + 1;
        }
        assert(all.take(i as int) =~= all);
        map
    }
}

/// `after` is `before` with some guilds disabled, nothing else changed.
pub open spec fn only_disabled(before: Seq<GuildInfo>, after: Seq<GuildInfo>) -> bool {
    &&& after.len() == before.len()
    &&& forall|i: int|
        0 <= i < before.len() ==> #[trigger] after[i] == before[i] || after[i] == with_enabled(
            before[i],
            false,
        )
}

proof fn lemma_pass_prefix(s: ConfigView, snaps: Seq<(u64, GuildSnapshot)>, p: int, n: int)
    requires
        s.wf(),
        0 <= p < s.guilds.len(),
        0 <= n <= s.guilds.len(),
    ensures
        ({
            let ids = guild_ids(s.guilds);
            let st = reconciled_all(s, ids.take(n), snaps);
            let outs = outcomes_all(s, ids.take(n), snaps);
            let id = s.guilds[p].id;
            let alone = outcome(s, id, snapshot_for(snaps, id));
            &&& st.codes == s.codes
            &&& only_disabled(s.guilds, st.guilds)
            &&& forall|i: int| n <= i < s.guilds.len() ==> #[trigger] st.guilds[i] == s.guilds[i]
            &&& n > p ==> st.guilds[p] == if alone is Disabled {
                with_enabled(s.guilds[p], false)
            } else {
                s.guilds[p]
            }
            &&& forall|k: int|
                0 <= k < outs.len() && (#[trigger] outs[k]).0 == id ==> outs[k].1 == alone
            &&& n > p && !(alone is Skipped) ==> exists|k: int|
                0 <= k < outs.len() && (#[trigger] outs[k]).0 == id
        }),
    decreases n,
{
    let ids = guild_ids(s.guilds);
    let f = |g: GuildInfo| with_enabled(g, false);
    let id = s.guilds[p].id;
    let alone = outcome(s, id, snapshot_for(snaps, id));
    if n == 0 {
        assert(ids.take(0) =~= Seq::<u64>::empty());
        assert(only_disabled(s.guilds, s.guilds));
    } else {
        let m = n - 1;
        lemma_pass_prefix(s, snaps, p, m);
        assert(ids.take(n).drop_last() =~= ids.take(m));
        assert(ids.take(n).last() == ids[m]);
        let prev = reconciled_all(s, ids.take(m), snaps);
        let prev_outs = outcomes_all(s, ids.take(m), snaps);
        let idm = s.guilds[m].id;
        let snap = snapshot_for(snaps, idm);
        assert(ids[m] == idm);
        assert forall|a: int, b: int|
            0 <= a < prev.guilds.len() && 0 <= b < prev.guilds.len() && a != b
            implies #[trigger] prev.guilds[a].id != #[trigger] prev.guilds[b].id by {
            assert(prev.guilds[a].id == s.guilds[a].id);
            assert(prev.guilds[b].id == s.guilds[b].id);
        }
        assert(prev.guilds[m] == s.guilds[m]);
        lemma_lookup_at(prev.guilds, idm, m);
        lemma_lookup_at(s.guilds, idm, m);
        assert(outcome(prev, idm, snap) == outcome(s, idm, snap));
        let st = reconciled_all(s, ids.take(n), snaps);
        let outs = outcomes_all(s, ids.take(n), snaps);
        if outcome(prev, idm, snap) is Disabled {
            lemma_update_at(prev.guilds, idm, m, f);
            assert(st.guilds == prev.guilds.update(m, with_enabled(prev.guilds[m], false)));
            assert forall|i: int| 0 <= i < s.guilds.len() implies #[trigger] st.guilds[i]
                == s.guilds[i] || st.guilds[i] == with_enabled(s.guilds[i], false) by {
                if i != m {
                    assert(st.guilds[i] == prev.guilds[i]);
                    assert(prev.guilds[i] == s.guilds[i] || prev.guilds[i] == with_enabled(
                        s.guilds[i],
                        false,
                    ));
                }
            }
        }
        if m == p {
            if !(alone is Skipped) {
                assert(outs[outs.len() - 1].0 == id);
            }
        } else {
            assert(idm != id);
            if n > p + 1 && !(alone is Skipped) {
                let k = choose|k: int|
                    0 <= k < prev_outs.len() && (#[trigger] prev_outs[k]).0 == id;
                assert(outs[k] == prev_outs[k]);
            }
        }
        assert forall|k: int| 0 <= k < outs.len() && (#[trigger] outs[k]).0 == id implies outs[k].1
            == alone by {
            if k < prev_outs.len() {
                assert(outs[k] == prev_outs[k]);
            }
        }
    }
}

/// In one reconciliation pass over the registry, every guild fares as if it
/// were reconciled alone against the store as it was before the pass: the
/// pass reports for it exactly that outcome (once, unless skipped) and
/// leaves its entry as that reconciliation would. With the outcome's own
/// definition, a valid guild is offered exactly the valid codes past its
/// cursor, in catalog order, and no cursor moves.
pub proof fn lemma_pass_per_guild(s: ConfigView, snaps: Seq<(u64, GuildSnapshot)>, id: u64)
    requires
        s.wf(),
        lookup(s.guilds, id) is Some,
    ensures
        ({
            let st = reconciled_all(s, guild_ids(s.guilds), snaps);
            let outs = outcomes_all(s, guild_ids(s.guilds), snaps);
            let alone = outcome(s, id, snapshot_for(snaps, id));
            &&& st.codes == s.codes
            &&& lookup(st.guilds, id) == lookup(
                reconciled(s, id, snapshot_for(snaps, id)).guilds,
                id,
            )
            &&& forall|k: int|
                0 <= k < outs.len() && (#[trigger] outs[k]).0 == id ==> outs[k].1 == alone
            &&& !(alone is Skipped) ==> exists|k: int|
                0 <= k < outs.len() && (#[trigger] outs[k]).0 == id
        }),
{
    let ids = guild_ids(s.guilds);
    let p = choose|i: int| 0 <= i < s.guilds.len() && #[trigger] s.guilds[i].id == id;
    lemma_lookup_at(s.guilds, id, p);
    let n = s.guilds.len() as int;
    lemma_pass_prefix(s, snaps, p, n);
    assert(ids.take(n) =~= ids);
    let st = reconciled_all(s, ids, snaps);
    assert forall|a: int, b: int|
        0 <= a < st.guilds.len() && 0 <= b < st.guilds.len() && a != b
        implies #[trigger] st.guilds[a].id != #[trigger] st.guilds[b].id by {
        assert(st.guilds[a].id == s.guilds[a].id);
        assert(st.guilds[b].id == s.guilds[b].id);
    }
    assert(st.guilds[p].id == id);
    lemma_lookup_at(st.guilds, id, p);
    let one = reconciled(s, id, snapshot_for(snaps, id));
    if outcome(s, id, snapshot_for(snaps, id)) is Disabled {
        let f = |g: GuildInfo| with_enabled(g, false);
        lemma_update_at(s.guilds, id, p, f);
        lemma_update_unique(s.guilds, id, f);
        lemma_lookup_at(one.guilds, id, p);
    }
}

/// In one reconciliation pass over the registry, a guild that is enabled and
/// whose alert channel does not resolve in the snapshot listed for it ends
/// up disabled with its cursor unchanged; its only outcome in the pass is
/// `Disabled`, so it gets no codes.
pub proof fn lemma_pass_disables_invalid(s: ConfigView, snaps: Seq<(u64, GuildSnapshot)>, id: u64)
    requires
        s.wf(),
        lookup(s.guilds, id) is Some,
        lookup(s.guilds, id)->Some_0.enabled,
        snapshot_for(snaps, id) is Some,
        !channel_valid(lookup(s.guilds, id)->Some_0, snapshot_for(snaps, id)->Some_0),
    ensures
        ({
            let st = reconciled_all(s, guild_ids(s.guilds), snaps);
            let outs = outcomes_all(s, guild_ids(s.guilds), snaps);
            &&& lookup(st.guilds, id) is Some
            &&& !lookup(st.guilds, id)->Some_0.enabled
            &&& lookup(st.guilds, id)->Some_0.last_code == lookup(s.guilds, id)->Some_0.last_code
            &&& exists|k: int| 0 <= k < outs.len() && (#[trigger] outs[k]).0 == id
            &&& forall|k: int|
                0 <= k < outs.len() && (#[trigger] outs[k]).0 == id ==> outs[k].1 is Disabled
        }),
{
    lemma_pass_per_guild(s, snaps, id);
    let other: u64 = if id == 0 {
        1
    } else {
        0
    };
    lemma_disable_on_invalid(s, id, snapshot_for(snaps, id)->Some_0, None, other);
}

} // verus!
