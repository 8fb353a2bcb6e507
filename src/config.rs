//! The owned store: the code catalog and the guild registry.
use vstd::prelude::*;

use crate::catalog::{
    after, codes_view, contains_text, delta, insert_code_by_uid, lemma_delta_members,
    lemma_sort_by_uid, sort_by_uid, has_text, ingested, invalidate_missing, texts_view,
    batch_texts, batch_view,
    upsert_all, upsert_one, CodeView, RedeemCode,
};
use crate::db::{
    code_of_row, code_rows_ok, code_rows_view, guild_of_row, guild_rows_ok, TursoCode, TursoGuild,
};
use crate::error::Error;
use crate::registry::{
    enabled_guilds, ensure_guild, ensure_guilds, has_guild, lemma_lookup_at,
    lemma_update_at, lemma_update_missing, lookup, update_guild, with_channel, with_cursor,
    with_enabled, with_role, GuildInfo,
};

verus! {

/// The catalog of codes and the registry of guilds, owned by one reconciler.
///
/// Identifiers are dense: the code at position `i` has identifier `i + 1`, so
/// positions and identifiers both grow in order of first sight.
#[derive(Debug)]
pub struct Config {
    pub(crate) codes: Vec<RedeemCode>,
    pub(crate) guilds: Vec<GuildInfo>,
}

/// What a [`Config`] holds, as a mathematical value.
pub struct ConfigView {
    pub codes: Seq<CodeView>,
    pub guilds: Seq<GuildInfo>,
}

impl View for Config {
    type V = ConfigView;

    closed spec fn view(&self) -> ConfigView {
        ConfigView { codes: codes_view(self.codes@), guilds: self.guilds@ }
    }
}

/// The code at position `i` carries identifier `i + 1`.
pub open spec fn dense_ids(codes: Seq<CodeView>) -> bool {
    forall|i: int| 0 <= i < codes.len() ==> #[trigger] codes[i].uid == i + 1
}

/// No two codes share a text.
pub open spec fn unique_texts(codes: Seq<CodeView>) -> bool {
    forall|i: int, j: int|
        0 <= i < codes.len() && 0 <= j < codes.len() && i != j ==> #[trigger] codes[i].text
            != #[trigger] codes[j].text
}

/// No two guilds share an id.
pub open spec fn unique_guilds(guilds: Seq<GuildInfo>) -> bool {
    forall|i: int, j: int|
        0 <= i < guilds.len() && 0 <= j < guilds.len() && i != j ==> #[trigger] guilds[i].id
            != #[trigger] guilds[j].id
}

impl ConfigView {
    /// The store's invariant.
    pub open spec fn wf(self) -> bool {
        &&& dense_ids(self.codes)
        &&& unique_texts(self.codes)
        &&& unique_guilds(self.guilds)
    }
}

impl Config {
    /// An empty catalog and an empty registry.
    pub fn new() -> (r: Config)
        ensures
            r@.wf(),
            r@.codes.len() == 0,
            r@.guilds.len() == 0,
    {
        let r = Config { codes: Vec::new(), guilds: Vec::new() };
        assert(r@.codes =~= Seq::<CodeView>::empty());
        r
    }

    /// The codes, in order of identifier.
    pub fn codes(&self) -> (r: &Vec<RedeemCode>)
        ensures
            codes_view(r@) == self@.codes,
    {
        &self.codes
    }

    /// The guilds, in order of registration.
    pub fn guilds(&self) -> (r: &Vec<GuildInfo>)
        ensures
            r@ == self@.guilds,
    {
        &self.guilds
    }
}

impl Config {
    /// The position of the code whose text is `t`, if there is one.
    fn find_code(&self, t: &String) -> (r: Option<usize>)
        ensures
            match r {
                Some(i) => i < self@.codes.len() && self@.codes[i as int].text == t@,
                None => !has_text(self@.codes, t@),
            },
    {
        let mut i: usize = 0;
        while i < self.codes.len()
            invariant
                i <= self.codes@.len(),
                forall|k: int| 0 <= k < i ==> self@.codes[k].text != t@,
            decreases self.codes@.len() - i,
        {
            if self.codes[i].code == *t {
                return Some(i);
            }
            i = i + 1;
        }
        None
    }

    /// Inserts `text` as a new valid code of the given kind with the next
    /// identifier, unless the catalog already holds it: then nothing changes,
    /// whatever its validity and kind.
    /// Returns the code's identifier and whether it was created. Fails with
    /// `Storage` only when the text is new and no identifier is left.
    pub fn upsert(&mut self, text: &String, is_version_code: bool) -> (r: Result<
        (u64, bool),
        Error,
    >)
        requires
            old(self)@.wf(),
        ensures
            final(self)@.wf(),
            final(self)@.codes == upsert_one(old(self)@.codes, text@, is_version_code),
            final(self)@.guilds == old(self)@.guilds,
            r is Err <==> (!has_text(old(self)@.codes, text@) && old(self)@.codes.len()
                >= u64::MAX),
            r is Err ==> r->Err_0 == Error::Storage,
            r is Ok ==> ({
                let (id, created) = r->Ok_0;
                &&& created == !has_text(old(self)@.codes, text@)
                &&& 1 <= id <= final(self)@.codes.len()
                &&& final(self)@.codes[id - 1].text == text@
            }),
    {
        match self.find_code(text) {
            Some(i) => {
                assert(self@.codes[i as int].uid == i + 1);
                assert(has_text(self@.codes, text@));
                Ok((self.codes[i].uid, false))
            },
            None => {
                let n = self.codes.len();
                if n as u64 == u64::MAX {
                    return Err(Error::Storage);
                }
                let uid = n as u64 + 1;
                let ghost before = self@.codes;
                self.codes.push(
                    RedeemCode { uid, code: text.clone(), valid: true, is_version_code },
                );
                assert(self@.codes =~= before.push(
                    CodeView { uid, text: text@, valid: true, is_version_code },
                ));
                Ok((uid, true))
            },
        }
    }

    /// Marks invalid every code whose text is not in `present`. Identifiers
    /// and texts stay; no code becomes valid.
    pub fn invalidate_missing(&mut self, present: &Vec<String>)
        requires
            old(self)@.wf(),
        ensures
            final(self)@.wf(),
            final(self)@.codes == invalidate_missing(old(self)@.codes, texts_view(present@)),
            final(self)@.guilds == old(self)@.guilds,
    {
        let ghost start = self@.codes;
        let ghost target = invalidate_missing(start, texts_view(present@));
        let mut i: usize = 0;
        while i < self.codes.len()
            invariant
                i <= self.codes@.len(),
                self@.codes.len() == start.len(),
                target == invalidate_missing(start, texts_view(present@)),
                start == old(self)@.codes,
                self@.guilds == old(self)@.guilds,
                forall|k: int| 0 <= k < i ==> self@.codes[k] == target[k],
                forall|k: int| i <= k < start.len() ==> self@.codes[k] == start[k],
            decreases self.codes@.len() - i,
        {
            let present_now = contains_text(present, &self.codes[i].code);
            if !present_now {
                self.codes[i].valid = false;
            }
            assert(self@.codes[i as int] == target[i as int]);
            i = i + 1;
        }
        assert(self@.codes =~= target);
        assert(forall|k: int| 0 <= k < target.len() ==> #[trigger] target[k].uid == start[k].uid
            && target[k].text == start[k].text);
    }

    /// Ingests a freshly observed batch of codes, each with whether it is
    /// time-limited: upserts each in turn (a code that cannot get an
    /// identifier is skipped, and the others still go in), then invalidates
    /// every code absent from the batch. Returns how many codes were created.
    pub fn ingest(&mut self, batch: &Vec<(String, bool)>) -> (created: usize)
        requires
            old(self)@.wf(),
        ensures
            final(self)@.wf(),
            final(self)@.codes == ingested(old(self)@.codes, batch_view(batch@)),
            final(self)@.guilds == old(self)@.guilds,
            created == final(self)@.codes.len() - old(self)@.codes.len(),
    {
        let ghost start = self@.codes;
        let ghost b = batch_view(batch@);
        let before: usize = self.codes.len();
        let mut present: Vec<String> = Vec::new();
        let mut i: usize = 0;
        while i < batch.len()
            invariant
                i <= batch@.len(),
                b == batch_view(batch@),
                self@.wf(),
                start == old(self)@.codes,
                self@.codes == upsert_all(start, b.take(i as int)),
                texts_view(present@) == batch_texts(b.take(i as int)),
                present@.len() == i,
                self@.guilds == old(self)@.guilds,
                self@.codes.len() >= start.len(),
                before == start.len(),
            decreases batch@.len() - i,
        {
            proof {
                assert(b.take(i as int + 1).drop_last() =~= b.take(i as int));
                assert(b.take(i as int + 1).last() == (batch@[i as int].0@, batch@[i as int].1));
            }
            let _ = self.upsert(&batch[i].0, batch[i].1);
            let ghost earlier = texts_view(present@);
            let ghost old_present = present@;
            let text = batch[i].0.clone();
            assert(text@ == batch@[i as int].0@);
            present.push(text);
            proof {
                assert(present@ == old_present.push(text));
                assert forall|k: int| 0 <= k < i implies #[trigger] texts_view(present@)[k]
                    == earlier[k] by {
                    assert(present@[k] == old_present[k]);
                }
                let t = batch_texts(b.take(i as int + 1));
                assert forall|k: int| 0 <= k < i implies #[trigger] t[k] == earlier[k] by {
                    assert(b.take(i as int + 1)[k] == b.take(i as int)[k]);
                }
                assert(t[i as int] == batch@[i as int].0@);
                assert(texts_view(present@) =~= t);
            }
            i = i + 1;
        }
        assert(b.take(batch@.len() as int) =~= b);
        let created = self.codes.len() - before;
        self.invalidate_missing(&present);
        created
    }

    /// The codes with an identifier above `cursor`, in ascending order of
    /// identifier; only the valid ones when `valid_only` holds.
    pub fn codes_after(&self, cursor: u64, valid_only: bool) -> (r: Vec<RedeemCode>)
        ensures
            codes_view(r@) == if valid_only {
                delta(self@.codes, cursor)
            } else {
                after(self@.codes, cursor)
            },
    {
        let mut out: Vec<RedeemCode> = Vec::new();
        let mut i: usize = 0;
        while i < self.codes.len()
            invariant
                i <= self.codes@.len(),
                codes_view(out@) == if valid_only {
                    delta(self@.codes.take(i as int), cursor)
                } else {
                    after(self@.codes.take(i as int), cursor)
                },
            decreases self.codes@.len() - i,
        {
            assert(self@.codes.take(i as int + 1).drop_last() =~= self@.codes.take(i as int));
            if self.codes[i].uid > cursor && (self.codes[i].valid || !valid_only) {
                out.push(self.codes[i].duplicate());
                assert(codes_view(out@) =~= codes_view(out@).drop_last().push(
                    self@.codes[i as int],
                ));
            }
            i = i + 1;
        }
        assert(self@.codes.take(self@.codes.len() as int) =~= self@.codes);
        out
    }

    /// The valid codes of `codes` with an identifier above `uid`, sorted by
    /// identifier in ascending order (codes with equal identifiers keep their
    /// order in `codes`). Whatever order `codes` is in, the result holds
    /// exactly those codes, and is empty exactly when there are none.
    pub fn codes_from(codes: &Vec<RedeemCode>, uid: u64) -> (r: Vec<RedeemCode>)
        ensures
            codes_view(r@) == sort_by_uid(delta(codes_view(codes@), uid)),
            forall|i: int, j: int|
                0 <= i < j < r@.len() ==> #[trigger] r@[i].uid <= #[trigger] r@[j].uid,
            codes_view(r@).to_multiset() == delta(codes_view(codes@), uid).to_multiset(),
            forall|c: CodeView|
                #[trigger] codes_view(r@).contains(c) <==> (codes_view(codes@).contains(c)
                    && c.valid && c.uid > uid),
            r@.len() == 0 <==> !(exists|i: int|
                0 <= i < codes@.len() && #[trigger] codes@[i].valid && codes@[i].uid > uid),
    {
        let mut out: Vec<RedeemCode> = Vec::new();
        let mut i: usize = 0;
        while i < codes.len()
            invariant
                i <= codes@.len(),
                codes_view(out@) == sort_by_uid(delta(codes_view(codes@).take(i as int), uid)),
            decreases codes@.len() - i,
        {
            let c = &codes[i];
            proof {
                assert(codes_view(codes@).take(i as int + 1).drop_last() =~= codes_view(
                    codes@,
                ).take(i as int));
            }
            if c.valid && c.uid > uid {
                proof {
                    let x = delta(codes_view(codes@).take(i as int), uid);
                    assert(x.push(c@).drop_last() =~= x);
                }
                insert_code_by_uid(&mut out, c.duplicate());
            }
            i = i + 1;
        }
        proof {
            let all = codes_view(codes@);
            let d = delta(all, uid);
            assert(all.take(codes@.len() as int) =~= all);
            lemma_sort_by_uid(d);
            lemma_delta_members(all, uid);
            broadcast use vstd::seq_lib::group_to_multiset_ensures;

            assert forall|c: CodeView|
                #[trigger] codes_view(out@).contains(c) <==> d.contains(c) by {
                assert(codes_view(out@).to_multiset().count(c) == d.to_multiset().count(c));
            }
            assert forall|i: int, j: int| 0 <= i < j < out@.len() implies #[trigger] out@[i].uid
                <= #[trigger] out@[j].uid by {
                assert(codes_view(out@)[i].uid == out@[i].uid);
                assert(codes_view(out@)[j].uid == out@[j].uid);
            }
            if exists|k: int|
                0 <= k < codes@.len() && #[trigger] codes@[k].valid && codes@[k].uid > uid {
                let k = choose|k: int|
                    0 <= k < codes@.len() && #[trigger] codes@[k].valid && codes@[k].uid > uid;
                assert(all[k].valid && all[k].uid > uid);
            }
            if exists|k: int| 0 <= k < all.len() && #[trigger] all[k].valid && all[k].uid > uid {
                let k = choose|k: int|
                    0 <= k < all.len() && #[trigger] all[k].valid && all[k].uid > uid;
                assert(codes@[k].valid && codes@[k].uid > uid);
            }
        }
        out
    }
}

impl Config {
    /// The position of the guild with id `id`, if the registry holds one.
    fn find_guild(&self, id: u64) -> (r: Option<usize>)
        ensures
            match r {
                Some(i) => i < self@.guilds.len() && self@.guilds[i as int].id == id,
                None => !has_guild(self@.guilds, id),
            },
    {
        let mut i: usize = 0;
        while i < self.guilds.len()
            invariant
                i <= self.guilds@.len(),
                forall|k: int| 0 <= k < i ==> self@.guilds[k].id != id,
            decreases self.guilds@.len() - i,
        {
            if self.guilds[i].id == id {
                return Some(i);
            }
            i = i + 1;
        }
        None
    }

    /// The guild with id `guild`, as the registry holds it now.
    pub fn guild(&self, guild: u64) -> (r: Option<GuildInfo>)
        requires
            self@.wf(),
        ensures
            r == lookup(self@.guilds, guild),
    {
        match self.find_guild(guild) {
            Some(i) => {
                proof {
                    lemma_lookup_at(self@.guilds, guild, i as int);
                }
                Some(self.guilds[i])
            },
            None => None,
        }
    }

    /// Replaces the guild with id `id` by `g`, which keeps that id; fails with
    /// `NotFound` when the registry holds no such guild.
    fn replace_guild(
        &mut self,
        id: u64,
        g: GuildInfo,
        Ghost(f): Ghost<spec_fn(GuildInfo) -> GuildInfo>,
    ) -> (r: Result<(), Error>)
        requires
            old(self)@.wf(),
            g.id == id,
            has_guild(old(self)@.guilds, id) ==> g == f(lookup(old(self)@.guilds, id)->Some_0),
            forall|x: GuildInfo| #[trigger] f(x).id == x.id,
        ensures
            final(self)@.wf(),
            final(self)@.codes == old(self)@.codes,
            final(self)@.guilds == update_guild(old(self)@.guilds, id, f),
            r is Err <==> !has_guild(old(self)@.guilds, id),
            r is Err ==> r->Err_0 == Error::NotFound,
    {
        match self.find_guild(id) {
            Some(i) => {
                proof {
                    lemma_lookup_at(self@.guilds, id, i as int);
                    lemma_update_at(self@.guilds, id, i as int, f);
                }
                let ghost before = self@.guilds;
                self.guilds[i] = g;
                assert(self@.guilds =~= before.update(i as int, g));
                assert(unique_guilds(self@.guilds)) by {
                    assert forall|a: int, b: int|
                        0 <= a < self@.guilds.len() && 0 <= b < self@.guilds.len() && a != b
                        implies #[trigger] self@.guilds[a].id != #[trigger] self@.guilds[b].id by {
                        assert(self@.guilds[a].id == before[a].id);
                        assert(self@.guilds[b].id == before[b].id);
                    }
                }
                Ok(())
            },
            None => {
                proof {
                    lemma_update_missing(self@.guilds, id, f);
                }
                Err(Error::NotFound)
            },
        }
    }
}

impl Config {
    /// Enables or disables the guild `guild`; fails with `NotFound` when the
    /// registry does not hold it.
    pub fn set_guild_state(&mut self, guild: u64, enabled: bool) -> (r: Result<(), Error>)
        requires
            old(self)@.wf(),
        ensures
            final(self)@.wf(),
            final(self)@.codes == old(self)@.codes,
            final(self)@.guilds == update_guild(
                old(self)@.guilds,
                guild,
                |g: GuildInfo| with_enabled(g, enabled),
            ),
            r is Err <==> !has_guild(old(self)@.guilds, guild),
            r is Err ==> r->Err_0 == Error::NotFound,
    {
        let ghost f = |g: GuildInfo| with_enabled(g, enabled);
        let r = match self.guild(guild) {
            Some(g) => self.replace_guild(guild, GuildInfo { enabled: enabled, ..g }, Ghost(f)),
            None => {
                proof {
                    lemma_update_missing(self@.guilds, guild, f);
                }
                Err(Error::NotFound)
            },
        };
        assert(self@.guilds =~= update_guild(
            old(self)@.guilds,
            guild,
            |g: GuildInfo| with_enabled(g, enabled),
        ));
        r
    }

    /// Sets or clears the alert role of the guild `guild`; fails with `NotFound`
    /// when the registry does not hold it.
    pub fn set_guild_alert_role(&mut self, guild: u64, role: Option<u64>) -> (r: Result<(), Error>)
        requires
            old(self)@.wf(),
        ensures
            final(self)@.wf(),
            final(self)@.codes == old(self)@.codes,
            final(self)@.guilds == update_guild(
                old(self)@.guilds,
                guild,
                |g: GuildInfo| with_role(g, role),
            ),
            r is Err <==> !has_guild(old(self)@.guilds, guild),
            r is Err ==> r->Err_0 == Error::NotFound,
    {
        let ghost f = |g: GuildInfo| with_role(g, role);
        let r = match self.guild(guild) {
            Some(g) => self.replace_guild(guild, GuildInfo { alert_role: role, ..g }, Ghost(f)),
            None => {
                proof {
                    lemma_update_missing(self@.guilds, guild, f);
                }
                Err(Error::NotFound)
            },
        };
        assert(self@.guilds =~= update_guild(
            old(self)@.guilds,
            guild,
            |g: GuildInfo| with_role(g, role),
        ));
        r
    }

    /// Sets or clears the alert channel of the guild `guild`; fails with
    /// `NotFound` when the registry does not hold it.
    pub fn set_guild_alert_channel(&mut self, guild: u64, channel: Option<u64>) -> (r: Result<
        (),
        Error,
    >)
        requires
            old(self)@.wf(),
        ensures
            final(self)@.wf(),
            final(self)@.codes == old(self)@.codes,
            final(self)@.guilds == update_guild(
                old(self)@.guilds,
                guild,
                |g: GuildInfo| with_channel(g, channel),
            ),
            r is Err <==> !has_guild(old(self)@.guilds, guild),
            r is Err ==> r->Err_0 == Error::NotFound,
    {
        let ghost f = |g: GuildInfo| with_channel(g, channel);
        let r = match self.guild(guild) {
            Some(g) => self.replace_guild(
                guild,
                GuildInfo { alert_channel: channel, ..g },
                Ghost(f),
            ),
            None => {
                proof {
                    lemma_update_missing(self@.guilds, guild, f);
                }
                Err(Error::NotFound)
            },
        };
        assert(self@.guilds =~= update_guild(
            old(self)@.guilds,
            guild,
            |g: GuildInfo| with_channel(g, channel),
        ));
        r
    }

    /// Advances the cursor of the guild `guild` to `code`; a code at or below
    /// the cursor leaves it as it is. Fails with `NotFound` when the registry
    /// does not hold the guild.
    pub fn advance_cursor(&mut self, guild: u64, code: u64) -> (r: Result<(), Error>)
        requires
            old(self)@.wf(),
        ensures
            final(self)@.wf(),
            final(self)@.codes == old(self)@.codes,
            final(self)@.guilds == update_guild(
                old(self)@.guilds,
                guild,
                |g: GuildInfo| with_cursor(g, code),
            ),
            r is Err <==> !has_guild(old(self)@.guilds, guild),
            r is Err ==> r->Err_0 == Error::NotFound,
    {
        let ghost f = |g: GuildInfo| with_cursor(g, code);
        let r = match self.guild(guild) {
            Some(g) => {
                let last_code = if code > g.last_code {
                    code
                } else {
                    g.last_code
                };
                self.replace_guild(guild, GuildInfo { last_code, ..g }, Ghost(f))
            },
            None => {
                proof {
                    lemma_update_missing(self@.guilds, guild, f);
                }
                Err(Error::NotFound)
            },
        };
        assert(self@.guilds =~= update_guild(
            old(self)@.guilds,
            guild,
            |g: GuildInfo| with_cursor(g, code),
        ));
        r
    }

    /// The alert role of the guild `guild`; `None` also when the registry
    /// does not hold it.
    pub fn guild_alert_role(&self, guild: u64) -> (r: Option<u64>)
        requires
            self@.wf(),
        ensures
            r == match lookup(self@.guilds, guild) {
                Some(g) => g.alert_role,
                None => None,
            },
    {
        match self.guild(guild) {
            Some(g) => g.alert_role,
            None => None,
        }
    }

    /// The alert channel of the guild `guild`; `None` also when the registry
    /// does not hold it.
    pub fn guild_alert_channel(&self, guild: u64) -> (r: Option<u64>)
        requires
            self@.wf(),
        ensures
            r == match lookup(self@.guilds, guild) {
                Some(g) => g.alert_channel,
                None => None,
            },
    {
        match self.guild(guild) {
            Some(g) => g.alert_channel,
            None => None,
        }
    }

    /// Registers the guild `guild` when it first becomes known: enabled, with
    /// cursor 0 and no channel or role. A guild already registered keeps its
    /// settings. Returns whether an entry was added.
    pub fn update_on_join(&mut self, guild: u64) -> (inserted: bool)
        requires
            old(self)@.wf(),
        ensures
            final(self)@.wf(),
            final(self)@.codes == old(self)@.codes,
            final(self)@.guilds == ensure_guild(old(self)@.guilds, guild),
            inserted == !has_guild(old(self)@.guilds, guild),
    {
        match self.find_guild(guild) {
            Some(i) => {
                assert(has_guild(self@.guilds, guild));
                false
            },
            None => {
                let ghost before = self@.guilds;
                self.guilds.push(
                    GuildInfo {
                        id: guild,
                        alert_role: None,
                        alert_channel: None,
                        enabled: true,
                        last_code: 0,
                    },
                );
                assert(unique_guilds(self@.guilds)) by {
                    assert forall|a: int, b: int|
                        0 <= a < self@.guilds.len() && 0 <= b < self@.guilds.len() && a != b
                        implies #[trigger] self@.guilds[a].id != #[trigger] self@.guilds[b].id by {
                        if a < before.len() && b < before.len() {
                            assert(self@.guilds[a] == before[a]);
                            assert(self@.guilds[b] == before[b]);
                        } else if a < before.len() {
                            assert(self@.guilds[a] == before[a]);
                        } else if b < before.len() {
                            assert(self@.guilds[b] == before[b]);
                        }
                    }
                }
                true
            },
        }
    }

    /// Registers each guild of `guilds` that the registry does not hold yet,
    /// in turn; guilds already registered keep their settings.
    pub fn update_guilds(&mut self, guilds: &Vec<u64>)
        requires
            old(self)@.wf(),
        ensures
            final(self)@.wf(),
            final(self)@.codes == old(self)@.codes,
            final(self)@.guilds == ensure_guilds(old(self)@.guilds, guilds@),
    {
        let mut i: usize = 0;
        while i < guilds.len()
            invariant
                i <= guilds@.len(),
                self@.wf(),
                self@.codes == old(self)@.codes,
                self@.guilds == ensure_guilds(old(self)@.guilds, guilds@.take(i as int)),
            decreases guilds@.len() - i,
        {
            assert(guilds@.take(i as int + 1).drop_last() =~= guilds@.take(i as int));
            self.update_on_join(guilds[i]);
            i = i + 1;
        }
        assert(guilds@.take(guilds@.len() as int) =~= guilds@);
    }

    /// The enabled guilds, in registry order.
    pub fn list_enabled(&self) -> (r: Vec<GuildInfo>)
        ensures
            r@ == enabled_guilds(self@.guilds),
    {
        let mut out: Vec<GuildInfo> = Vec::new();
        let mut i: usize = 0;
        while i < self.guilds.len()
            invariant
                i <= self.guilds@.len(),
                out@ == enabled_guilds(self@.guilds.take(i as int)),
            decreases self.guilds@.len() - i,
        {
            assert(self@.guilds.take(i as int + 1).drop_last() =~= self@.guilds.take(i as int));
            if self.guilds[i].enabled {
                out.push(self.guilds[i]);
            }
            i = i + 1;
        }
        assert(self@.guilds.take(self@.guilds.len() as int) =~= self@.guilds);
        out
    }
}

impl Config {
    /// Builds the store from the rows of the `codes` table, ordered by
    /// identifier, and of the `guilds` table. Fails with `Storage` when the
    /// rows do not make a valid store.
    pub fn from_tables(codes: &Vec<TursoCode>, guilds: &Vec<TursoGuild>) -> (r: Result<
        Config,
        Error,
    >)
        ensures
            r is Ok <==> code_rows_ok(code_rows_view(codes@)) && guild_rows_ok(guilds@),
            r is Ok ==> r->Ok_0@.wf(),
            r is Ok ==> r->Ok_0@.codes == code_rows_view(codes@).map_values(
                |c: crate::db::TursoCodeView| code_of_row(c),
            ),
            r is Ok ==> r->Ok_0@.guilds == guilds@.map_values(|g: TursoGuild| guild_of_row(g)),
            r is Err ==> r->Err_0 == Error::Storage,
    {
        let ghost rows = code_rows_view(codes@);
        let ghost target = rows.map_values(|c: crate::db::TursoCodeView| code_of_row(c));
        let mut cfg = Config::new();
        let mut i: usize = 0;
        while i < codes.len()
            invariant
                i <= codes@.len(),
                rows == code_rows_view(codes@),
                target == rows.map_values(|c: crate::db::TursoCodeView| code_of_row(c)),
                cfg@.wf(),
                cfg@.guilds.len() == 0,
                cfg@.codes == target.take(i as int),
                forall|k: int| 0 <= k < i ==> (#[trigger] rows[k]).id == k + 1,
                forall|k: int| 0 <= k < i ==> (#[trigger] rows[k]).valid == 0 || rows[k].valid == 1,
                forall|k: int| 0 <= k < i ==> (#[trigger] rows[k]).kind == 0 || rows[k].kind == 1,
                forall|a: int, b: int|
                    0 <= a < i && 0 <= b < i && a != b ==> #[trigger] rows[a].code
                        != #[trigger] rows[b].code,
            decreases codes@.len() - i,
        {
            let row = &codes[i];
            let flags_ok = (row.valid == 0 || row.valid == 1) && (row.kind == 0 || row.kind == 1);
            if row.id as i128 != i as i128 + 1 || !flags_ok {
                assert(!code_rows_ok(rows)) by {
                    assert(rows[i as int] == row@);
                }
                return Err(Error::Storage);
            }
            if let Some(j) = cfg.find_code(&row.code) {
                assert(!code_rows_ok(rows)) by {
                    assert(rows[i as int] == row@);
                    assert(cfg@.codes[j as int] == target[j as int]);
                    assert(target[j as int].text == rows[j as int].code);
                    assert(rows[j as int].code == rows[i as int].code);
                    assert(j != i);
                }
                return Err(Error::Storage);
            }
            let ghost before = cfg@.codes;
            cfg.codes.push(
                RedeemCode {
                    uid: row.id as u64,
                    code: row.code.clone(),
                    valid: row.valid == 1,
                    is_version_code: row.kind == 1,
                },
            );
            proof {
                assert(rows[i as int] == row@);
                assert(cfg@.codes =~= target.take(i as int + 1));
                assert forall|a: int, b: int|
                    0 <= a < i + 1 && 0 <= b < i + 1 && a != b implies #[trigger] rows[a].code
                        != #[trigger] rows[b].code by {
                    if a == i {
                        assert(!has_text(before, rows[a].code));
                        assert(before[b].text == rows[b].code);
                    } else if b == i {
                        assert(!has_text(before, rows[b].code));
                        assert(before[a].text == rows[a].code);
                    }
                }
            }
            i = i + 1;
        }
        assert(target.take(codes@.len() as int) =~= target);
        let mut k: usize = 0;
        while k < guilds.len()
            invariant
                k <= guilds@.len(),
                cfg@.wf(),
                cfg@.codes == target,
                cfg@.guilds == guilds@.take(k as int).map_values(|g: TursoGuild| guild_of_row(g)),
                forall|m: int|
                    0 <= m < k ==> ((#[trigger] guilds@[m]).enabled == 0 || guilds@[m].enabled
                        == 1) && guilds@[m].last_code >= 0,
                forall|a: int, b: int|
                    0 <= a < k && 0 <= b < k && a != b ==> #[trigger] guilds@[a].guild_id
                        != #[trigger] guilds@[b].guild_id,
            decreases guilds@.len() - k,
        {
            let row = guilds[k];
            if (row.enabled != 0 && row.enabled != 1) || row.last_code < 0 {
                return Err(Error::Storage);
            }
            if let Some(j) = cfg.find_guild(row.guild_id) {
                assert(cfg@.guilds[j as int] == guild_of_row(guilds@[j as int]));
                return Err(Error::Storage);
            }
            let ghost before = cfg@.guilds;
            cfg.guilds.push(
                GuildInfo {
                    id: row.guild_id,
                    alert_role: row.alert_role,
                    alert_channel: row.alert_channel,
                    enabled: row.enabled == 1,
                    last_code: row.last_code as u64,
                },
            );
            proof {
                assert(cfg@.guilds =~= guilds@.take(k as int + 1).map_values(
                    |g: TursoGuild| guild_of_row(g),
                ));
                assert forall|a: int, b: int|
                    0 <= a < k + 1 && 0 <= b < k + 1 && a != b
                    implies #[trigger] guilds@[a].guild_id != #[trigger] guilds@[b].guild_id by {
                    if a == k {
                        assert(before[b].id == guilds@[b].guild_id);
                    } else if b == k {
                        assert(before[a].id == guilds@[a].guild_id);
                    }
                }
            }
            k = k + 1;
        }
        assert(guilds@.take(guilds@.len() as int) =~= guilds@);
        Ok(cfg)
    }
}

} // verus!
