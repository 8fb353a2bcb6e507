//! The code catalog: every code ever observed, in order of first sight.
use vstd::prelude::*;

verus! {

/// A promotional code as the catalog keeps it.
#[derive(Debug)]
pub struct RedeemCode {
    /// Identifier, assigned on first insertion and never reused.
    pub uid: u64,
    /// The code text, unique over the catalog.
    pub code: String,
    /// Whether the code was present in the latest observation.
    pub valid: bool,
    /// Whether the code is a time-limited one rather than an ordinary one.
    pub is_version_code: bool,
}

/// What a [`RedeemCode`] holds, as a mathematical value.
pub struct CodeView {
    pub uid: u64,
    pub text: Seq<char>,
    pub valid: bool,
    pub is_version_code: bool,
}

impl View for RedeemCode {
    type V = CodeView;

    open spec fn view(&self) -> CodeView {
        CodeView {
            uid: self.uid,
            text: self.code@,
            valid: self.valid,
            is_version_code: self.is_version_code,
        }
    }
}

/// The views of a sequence of codes.
pub open spec fn codes_view(codes: Seq<RedeemCode>) -> Seq<CodeView> {
    codes.map_values(|c: RedeemCode| c@)
}

/// The valid codes of `codes` whose identifier is above `cursor`, in their order.
pub open spec fn delta(codes: Seq<CodeView>, cursor: u64) -> Seq<CodeView>
    decreases codes.len(),
{
    if codes.len() == 0 {
        Seq::empty()
    } else {
        let rest = delta(codes.drop_last(), cursor);
        if codes.last().valid && codes.last().uid > cursor {
            rest.push(codes.last())
        } else {
            rest
        }
    }
}

/// The codes of `codes`, valid or not, whose identifier is above `cursor`,
/// in their order.
pub open spec fn after(codes: Seq<CodeView>, cursor: u64) -> Seq<CodeView>
    decreases codes.len(),
{
    if codes.len() == 0 {
        Seq::empty()
    } else {
        let rest = after(codes.drop_last(), cursor);
        if codes.last().uid > cursor {
            rest.push(codes.last())
        } else {
            rest
        }
    }
}

impl RedeemCode {
    /// A copy of this code.
    pub fn duplicate(&self) -> (r: RedeemCode)
        ensures
            r@ == self@,
    {
        RedeemCode {
            uid: self.uid,
            code: self.code.clone(),
            valid: self.valid,
            is_version_code: self.is_version_code,
        }
    }
}

/// The texts of a sequence of strings.
pub open spec fn texts_view(batch: Seq<String>) -> Seq<Seq<char>> {
    batch.map_values(|s: String| s@)
}

/// Some code of `codes` has text `t`.
pub open spec fn has_text(codes: Seq<CodeView>, t: Seq<char>) -> bool {
    exists|i: int| 0 <= i < codes.len() && #[trigger] codes[i].text == t
}

/// The observed codes of a batch: each text with whether it is time-limited.
pub open spec fn batch_view(batch: Seq<(String, bool)>) -> Seq<(Seq<char>, bool)> {
    batch.map_values(|p: (String, bool)| (p.0@, p.1))
}

/// The texts of an observed batch.
pub open spec fn batch_texts(batch: Seq<(Seq<char>, bool)>) -> Seq<Seq<char>> {
    batch.map_values(|p: (Seq<char>, bool)| p.0)
}

/// The catalog after one upsert of `t`: unchanged when `t` is already there
/// (whatever its validity and kind) or when no identifier is left, else `t`
/// appended as a valid code of kind `version` with the next identifier.
pub open spec fn upsert_one(codes: Seq<CodeView>, t: Seq<char>, version: bool) -> Seq<CodeView> {
    if has_text(codes, t) || codes.len() >= u64::MAX {
        codes
    } else {
        codes.push(
            CodeView {
                uid: (codes.len() + 1) as u64,
                text: t,
                valid: true,
                is_version_code: version,
            },
        )
    }
}

/// The catalog after upserting each text of `batch` in turn.
pub open spec fn upsert_all(codes: Seq<CodeView>, batch: Seq<(Seq<char>, bool)>) -> Seq<CodeView>
    decreases batch.len(),
{
    if batch.len() == 0 {
        codes
    } else {
        upsert_one(upsert_all(codes, batch.drop_last()), batch.last().0, batch.last().1)
    }
}

/// The catalog with every code whose text is not in `present` marked invalid.
pub open spec fn invalidate_missing(codes: Seq<CodeView>, present: Seq<Seq<char>>) -> Seq<
    CodeView,
> {
    Seq::new(
        codes.len(),
        |i: int|
            CodeView {
                uid: codes[i].uid,
                text: codes[i].text,
                valid: codes[i].valid && present.contains(codes[i].text),
                is_version_code: codes[i].is_version_code,
            },
    )
}

/// The catalog after ingesting `batch`: every text upserted, then every code
/// absent from the batch invalidated.
pub open spec fn ingested(codes: Seq<CodeView>, batch: Seq<(Seq<char>, bool)>) -> Seq<CodeView> {
    invalidate_missing(upsert_all(codes, batch), batch_texts(batch))
}

/// The greatest identifier in `codes`, or 0 when it is empty.
pub open spec fn max_uid(codes: Seq<CodeView>) -> u64
    decreases codes.len(),
{
    if codes.len() == 0 {
        0
    } else {
        let m = max_uid(codes.drop_last());
        if codes.last().uid > m {
            codes.last().uid
        } else {
            m
        }
    }
}

/// Whether `list` holds a string equal to `t`.
pub fn contains_text(list: &Vec<String>, t: &String) -> (r: bool)
    ensures
        r == texts_view(list@).contains(t@),
{
    let mut i: usize = 0;
    while i < list.len()
        invariant
            i <= list@.len(),
            forall|k: int| 0 <= k < i ==> list@[k]@ != t@,
        decreases list@.len() - i,
    {
        if list[i] == *t {
            assert(texts_view(list@)[i as int] == t@);
            return true;
        }
        i = i + 1;
    }
    assert(!texts_view(list@).contains(t@)) by {
        if texts_view(list@).contains(t@) {
            let k = choose|k: int| 0 <= k < list@.len() && texts_view(list@)[k] == t@;
            assert(list@[k]@ == t@);
        }
    }
    false
}

/// After upserting a batch, each of its texts is in the catalog, unless no
/// identifier was left.
proof fn lemma_upsert_all_covers(codes: Seq<CodeView>, batch: Seq<(Seq<char>, bool)>)
    ensures
        forall|k: int|
            0 <= k < batch.len() ==> has_text(upsert_all(codes, batch), #[trigger] batch[k].0)
                || upsert_all(codes, batch).len() >= u64::MAX,
    decreases batch.len(),
{
    if batch.len() > 0 {
        let prev = upsert_all(codes, batch.drop_last());
        let next = upsert_all(codes, batch);
        lemma_upsert_all_covers(codes, batch.drop_last());
        assert forall|k: int| 0 <= k < batch.len() implies has_text(next, #[trigger] batch[k].0)
            || next.len() >= u64::MAX by {
            if k == batch.len() - 1 {
                if !has_text(prev, batch.last().0) && prev.len() < u64::MAX {
                    assert(next[prev.len() as int].text == batch.last().0);
                }
            } else {
                assert(batch.drop_last()[k] == batch[k]);
                if has_text(prev, batch[k].0) {
                    let i = choose|i: int|
                        0 <= i < prev.len() && #[trigger] prev[i].text == batch[k].0;
                    assert(next[i] == prev[i]);
                }
            }
        }
    }
}

/// Upserting texts that are all present already (or with no identifier left)
/// changes nothing.
proof fn lemma_upsert_all_fixed(codes: Seq<CodeView>, batch: Seq<(Seq<char>, bool)>)
    requires
        forall|k: int|
            0 <= k < batch.len() ==> has_text(codes, #[trigger] batch[k].0) || codes.len()
                >= u64::MAX,
    ensures
        upsert_all(codes, batch) == codes,
    decreases batch.len(),
{
    if batch.len() > 0 {
        assert forall|k: int| 0 <= k < batch.drop_last().len() implies has_text(
            codes,
            #[trigger] batch.drop_last()[k].0,
        ) || codes.len() >= u64::MAX by {
            assert(batch.drop_last()[k] == batch[k]);
        }
        lemma_upsert_all_fixed(codes, batch.drop_last());
        assert(has_text(codes, batch[batch.len() - 1].0) || codes.len() >= u64::MAX);
    }
}

/// Ingesting the same batch twice leaves the catalog as ingesting it once: no
/// duplicate codes, no new identifiers, no further change of validity.
pub proof fn lemma_ingest_idempotent(codes: Seq<CodeView>, batch: Seq<(Seq<char>, bool)>)
    ensures
        ingested(ingested(codes, batch), batch) == ingested(codes, batch),
{
    let once = upsert_all(codes, batch);
    let inv = ingested(codes, batch);
    lemma_upsert_all_covers(codes, batch);
    assert forall|k: int| 0 <= k < batch.len() implies has_text(inv, #[trigger] batch[k].0)
        || inv.len() >= u64::MAX by {
        if has_text(once, batch[k].0) {
            let i = choose|i: int| 0 <= i < once.len() && #[trigger] once[i].text == batch[k].0;
            assert(inv[i].text == batch[k].0);
        }
    }
    lemma_upsert_all_fixed(inv, batch);
    assert(invalidate_missing(inv, batch_texts(batch)) =~= inv);
}

/// Upserting keeps every code already in the catalog, in place.
proof fn lemma_upsert_all_keeps(codes: Seq<CodeView>, batch: Seq<(Seq<char>, bool)>)
    ensures
        upsert_all(codes, batch).len() >= codes.len(),
        forall|i: int| 0 <= i < codes.len() ==> #[trigger] upsert_all(codes, batch)[i] == codes[i],
    decreases batch.len(),
{
    if batch.len() > 0 {
        lemma_upsert_all_keeps(codes, batch.drop_last());
    }
}

/// Ingestion keeps every code already in the catalog at its place, with its
/// identifier and text, and never makes an invalid code valid again.
pub proof fn lemma_ingest_never_revalidates(codes: Seq<CodeView>, batch: Seq<(Seq<char>, bool)>)
    ensures
        ingested(codes, batch).len() >= codes.len(),
        forall|i: int|
            0 <= i < codes.len() ==> (#[trigger] ingested(codes, batch)[i]).uid == codes[i].uid
                && ingested(codes, batch)[i].text == codes[i].text
                && (ingested(codes, batch)[i].valid ==> codes[i].valid),
{
    lemma_upsert_all_keeps(codes, batch);
}

/// The delta past `cursor` holds exactly the valid codes with an identifier
/// above `cursor`, and is empty exactly when there is no such code.
pub proof fn lemma_delta_members(codes: Seq<CodeView>, cursor: u64)
    ensures
        forall|c: CodeView|
            #[trigger] delta(codes, cursor).contains(c) <==> (codes.contains(c) && c.valid
                && c.uid > cursor),
        delta(codes, cursor).len() == 0 <==> !(exists|i: int|
            0 <= i < codes.len() && #[trigger] codes[i].valid && codes[i].uid > cursor),
    decreases codes.len(),
{
    let d = delta(codes, cursor);
    if codes.len() > 0 {
        let pre = codes.drop_last();
        let dp = delta(pre, cursor);
        lemma_delta_members(pre, cursor);
        let last = codes.last();
        assert forall|c: CodeView| #[trigger] d.contains(c) <==> (codes.contains(c) && c.valid
            && c.uid > cursor) by {
            if d.contains(c) {
                if last.valid && last.uid > cursor && c == last {
                    assert(codes[codes.len() - 1] == c);
                } else {
                    let k = choose|k: int| 0 <= k < d.len() && d[k] == c;
                    assert(dp[k] == c);
                    assert(dp.contains(c));
                    let m = choose|m: int| 0 <= m < pre.len() && pre[m] == c;
                    assert(codes[m] == c);
                }
            }
            if codes.contains(c) && c.valid && c.uid > cursor {
                let m = choose|m: int| 0 <= m < codes.len() && codes[m] == c;
                if m == codes.len() - 1 {
                    assert(d[d.len() - 1] == c);
                } else {
                    assert(pre[m] == c);
                    assert(pre.contains(c));
                    assert(dp.contains(c));
                    let k = choose|k: int| 0 <= k < dp.len() && dp[k] == c;
                    assert(d[k] == c);
                }
            }
        }
        if !(d.len() == 0) {
            let c = d[0];
            assert(d.contains(c));
            let m = choose|m: int| 0 <= m < codes.len() && codes[m] == c;
            assert(codes[m].valid && codes[m].uid > cursor);
        }
        if exists|i: int|
            0 <= i < codes.len() && #[trigger] codes[i].valid && codes[i].uid > cursor {
            let i = choose|i: int|
                0 <= i < codes.len() && #[trigger] codes[i].valid && codes[i].uid > cursor;
            assert(codes.contains(codes[i]));
            assert(d.contains(codes[i]));
        }
    }
}

/// For codes whose identifiers follow their positions (the catalog's
/// invariant), the delta past `cursor` holds exactly the valid codes with an
/// identifier above `cursor`, in ascending order of identifier, and is empty
/// exactly when there is no such code.
pub proof fn lemma_delta_complete(codes: Seq<CodeView>, cursor: u64)
    requires
        forall|i: int| 0 <= i < codes.len() ==> #[trigger] codes[i].uid == i + 1,
    ensures
        forall|c: CodeView|
            #[trigger] delta(codes, cursor).contains(c) <==> (codes.contains(c) && c.valid
                && c.uid > cursor),
        forall|i: int, j: int|
            0 <= i < j < delta(codes, cursor).len() ==> #[trigger] delta(codes, cursor)[i].uid
                < #[trigger] delta(codes, cursor)[j].uid,
        forall|i: int|
            0 <= i < delta(codes, cursor).len() ==> #[trigger] delta(codes, cursor)[i].uid
                <= codes.len(),
        delta(codes, cursor).len() == 0 <==> !(exists|i: int|
            0 <= i < codes.len() && #[trigger] codes[i].valid && codes[i].uid > cursor),
    decreases codes.len(),
{
    lemma_delta_members(codes, cursor);
    if codes.len() > 0 {
        let pre = codes.drop_last();
        assert forall|i: int| 0 <= i < pre.len() implies #[trigger] pre[i].uid == i + 1 by {
            assert(pre[i] == codes[i]);
        }
        lemma_delta_complete(pre, cursor);
        lemma_delta_members(pre, cursor);
        assert(codes.last().uid == codes.len());
    }
}

/// `s` with `c` placed after the trailing codes whose identifier is above
/// `c`'s moved past it: in an ascending `s`, `c` lands after every code with an
/// identifier not above its own.
pub open spec fn insert_by_uid(s: Seq<CodeView>, c: CodeView) -> Seq<CodeView>
    decreases s.len(),
{
    if s.len() == 0 {
        seq![c]
    } else if s.last().uid > c.uid {
        insert_by_uid(s.drop_last(), c).push(s.last())
    } else {
        s.push(c)
    }
}

/// `s` sorted by identifier, ascending; codes with equal identifiers keep
/// their order.
pub open spec fn sort_by_uid(s: Seq<CodeView>) -> Seq<CodeView>
    decreases s.len(),
{
    if s.len() == 0 {
        s
    } else {
        insert_by_uid(sort_by_uid(s.drop_last()), s.last())
    }
}

/// Identifiers do not decrease along `s`.
pub open spec fn ascending(s: Seq<CodeView>) -> bool {
    forall|i: int, j: int| 0 <= i < j < s.len() ==> #[trigger] s[i].uid <= #[trigger] s[j].uid
}

/// Inserting by identifier adds `c` to the codes and keeps an ascending
/// sequence ascending.
proof fn lemma_insert_by_uid(s: Seq<CodeView>, c: CodeView)
    ensures
        insert_by_uid(s, c).to_multiset() == s.to_multiset().insert(c),
        insert_by_uid(s, c).len() == s.len() + 1,
        ascending(s) ==> ascending(insert_by_uid(s, c)),
    decreases s.len(),
{
    broadcast use vstd::seq_lib::group_to_multiset_ensures;

    let r = insert_by_uid(s, c);
    if s.len() == 0 {
        assert(seq![c] =~= Seq::<CodeView>::empty().push(c));
        assert(r.to_multiset() =~= s.to_multiset().insert(c));
    } else if s.last().uid > c.uid {
        let pre = s.drop_last();
        let rp = insert_by_uid(pre, c);
        lemma_insert_by_uid(pre, c);
        assert(s =~= pre.push(s.last()));
        assert(r.to_multiset() =~= s.to_multiset().insert(c));
        if ascending(s) {
            assert forall|i: int, j: int| 0 <= i < j < r.len() implies #[trigger] r[i].uid
                <= #[trigger] r[j].uid by {
                if j == r.len() - 1 {
                    let x = rp[i];
                    assert(rp.contains(x));
                    assert(rp.to_multiset().count(x) > 0);
                    if x != c {
                        assert(pre.to_multiset().count(x) > 0);
                        assert(pre.contains(x));
                        let k = choose|k: int| 0 <= k < pre.len() && pre[k] == x;
                        assert(s[k] == x);
                    }
                }
            }
        }
    } else {
        assert(r.to_multiset() =~= s.to_multiset().insert(c));
    }
}

/// Sorting by identifier keeps the same codes and yields an ascending
/// sequence.
pub proof fn lemma_sort_by_uid(s: Seq<CodeView>)
    ensures
        sort_by_uid(s).to_multiset() == s.to_multiset(),
        ascending(sort_by_uid(s)),
    decreases s.len(),
{
    broadcast use vstd::seq_lib::group_to_multiset_ensures;

    if s.len() > 0 {
        lemma_sort_by_uid(s.drop_last());
        lemma_insert_by_uid(sort_by_uid(s.drop_last()), s.last());
        assert(s =~= s.drop_last().push(s.last()));
    }
}

/// Inserts `c` into `out` as `insert_by_uid` places it.
pub(crate) fn insert_code_by_uid(out: &mut Vec<RedeemCode>, c: RedeemCode)
    ensures
        codes_view(final(out)@) == insert_by_uid(codes_view(old(out)@), c@),
{
    let ghost s = codes_view(out@);
    let mut p: usize = out.len();
    assert(s.take(p as int) =~= s);
    assert(s.skip(p as int) =~= Seq::<CodeView>::empty());
    while p > 0 && out[p - 1].uid > c.uid
        invariant
            p <= out@.len(),
            s == codes_view(out@),
            insert_by_uid(s, c@) == insert_by_uid(s.take(p as int), c@) + s.skip(p as int),
            forall|k: int| p <= k < s.len() ==> #[trigger] s[k].uid > c.uid,
        decreases p,
    {
        let ghost q = (p - 1) as int;
        assert(s.take(p as int).drop_last() =~= s.take(q));
        assert(s.take(p as int).last() == s[q]);
        assert(s.skip(q) =~= seq![s[q]] + s.skip(p as int));
        assert(insert_by_uid(s.take(p as int), c@) == insert_by_uid(s.take(q), c@).push(s[q]));
        assert(insert_by_uid(s.take(q), c@).push(s[q]) + s.skip(p as int) =~= insert_by_uid(
            s.take(q),
            c@,
        ) + s.skip(q));
        p = p - 1;
    }
    if p > 0 {
        assert(s.take(p as int).last() == s[p - 1]);
    }
    assert(insert_by_uid(s.take(p as int), c@) == s.take(p as int).push(c@));
    let ghost cv = c@;
    out.insert(p, c);
    assert(codes_view(out@) =~= s.insert(p as int, cv));
    assert(s.insert(p as int, cv) =~= s.take(p as int).push(cv) + s.skip(p as int));
}

/// Some item of `items` has text `t`.
pub open spec fn has_item_text(items: Seq<(Seq<char>, bool)>, t: Seq<char>) -> bool {
    exists|k: int| 0 <= k < items.len() && #[trigger] items[k].0 == t
}

/// The items of `batch` whose text is neither in `codes` nor earlier in the
/// batch, in order of first occurrence.
pub open spec fn fresh_items(codes: Seq<CodeView>, batch: Seq<(Seq<char>, bool)>) -> Seq<
    (Seq<char>, bool),
>
    decreases batch.len(),
{
    if batch.len() == 0 {
        Seq::empty()
    } else {
        let f = fresh_items(codes, batch.drop_last());
        if has_text(codes, batch.last().0) || has_item_text(f, batch.last().0) {
            f
        } else {
            f.push(batch.last())
        }
    }
}

/// `codes` followed by a valid code for each of `items`, with identifiers
/// continuing from `codes.len() + 1`.
pub open spec fn appended(codes: Seq<CodeView>, items: Seq<(Seq<char>, bool)>) -> Seq<CodeView> {
    codes + Seq::new(
        items.len(),
        |k: int|
            CodeView {
                uid: (codes.len() + k + 1) as u64,
                text: items[k].0,
                valid: true,
                is_version_code: items[k].1,
            },
    )
}

proof fn lemma_upsert_all_appends(codes: Seq<CodeView>, batch: Seq<(Seq<char>, bool)>)
    requires
        codes.len() + batch.len() < u64::MAX,
    ensures
        upsert_all(codes, batch) == appended(codes, fresh_items(codes, batch)),
        fresh_items(codes, batch).len() <= batch.len(),
    decreases batch.len(),
{
    if batch.len() == 0 {
        assert(appended(codes, Seq::empty()) =~= codes);
    } else {
        let pre = batch.drop_last();
        let f = fresh_items(codes, pre);
        let prev = appended(codes, f);
        let t = batch.last().0;
        lemma_upsert_all_appends(codes, pre);
        assert(has_text(prev, t) <==> has_text(codes, t) || has_item_text(f, t)) by {
            if has_text(prev, t) {
                let i = choose|i: int| 0 <= i < prev.len() && #[trigger] prev[i].text == t;
                if i >= codes.len() {
                    assert(f[i - codes.len()].0 == t);
                } else {
                    assert(codes[i].text == t);
                }
            }
            if has_text(codes, t) {
                let i = choose|i: int| 0 <= i < codes.len() && #[trigger] codes[i].text == t;
                assert(prev[i].text == t);
            }
            if has_item_text(f, t) {
                let k = choose|k: int| 0 <= k < f.len() && #[trigger] f[k].0 == t;
                assert(prev[codes.len() + k].text == t);
            }
        }
        if !(has_text(codes, t) || has_item_text(f, t)) {
            assert(appended(codes, f.push(batch.last())) =~= prev.push(
                CodeView {
                    uid: (prev.len() + 1) as u64,
                    text: t,
                    valid: true,
                    is_version_code: batch.last().1,
                },
            ));
        }
    }
}

/// Ingesting a batch (while identifiers are left) keeps every code in place
/// and appends one valid code per text that is new to the catalog, in order
/// of first occurrence in the batch, with identifiers continuing from
/// `codes.len() + 1` without gaps: repeated or already known texts take no
/// identifier.
pub proof fn lemma_ingest_appends_fresh(codes: Seq<CodeView>, batch: Seq<(Seq<char>, bool)>)
    requires
        codes.len() + batch.len() < u64::MAX,
    ensures
        ({
            let r = ingested(codes, batch);
            let f = fresh_items(codes, batch);
            &&& r.len() == codes.len() + f.len()
            &&& forall|i: int|
                0 <= i < codes.len() ==> (#[trigger] r[i]).uid == codes[i].uid && r[i].text
                    == codes[i].text && r[i].is_version_code == codes[i].is_version_code
            &&& forall|k: int|
                0 <= k < f.len() ==> #[trigger] r[codes.len() + k] == CodeView {
                    uid: (codes.len() + k + 1) as u64,
                    text: f[k].0,
                    valid: true,
                    is_version_code: f[k].1,
                }
        }),
{
    let f = fresh_items(codes, batch);
    lemma_upsert_all_appends(codes, batch);
    lemma_fresh_in_batch(codes, batch);
    let u = upsert_all(codes, batch);
    let r = ingested(codes, batch);
    assert forall|i: int| 0 <= i < codes.len() implies (#[trigger] r[i]).uid == codes[i].uid
        && r[i].text == codes[i].text && r[i].is_version_code == codes[i].is_version_code by {
        assert(u[i] == codes[i]);
    }
    assert forall|k: int| 0 <= k < f.len() implies #[trigger] r[codes.len() + k] == CodeView {
        uid: (codes.len() + k + 1) as u64,
        text: f[k].0,
        valid: true,
        is_version_code: f[k].1,
    } by {
        assert(u[codes.len() + k].text == f[k].0);
        let m = choose|m: int| 0 <= m < batch.len() && #[trigger] batch[m] == f[k];
        assert(batch_texts(batch)[m] == f[k].0);
    }
}

/// Every fresh item comes from the batch.
proof fn lemma_fresh_in_batch(codes: Seq<CodeView>, batch: Seq<(Seq<char>, bool)>)
    ensures
        forall|k: int|
            0 <= k < fresh_items(codes, batch).len() ==> exists|m: int|
                0 <= m < batch.len() && #[trigger] batch[m] == #[trigger] fresh_items(
                    codes,
                    batch,
                )[k],
    decreases batch.len(),
{
    if batch.len() > 0 {
        let pre = batch.drop_last();
        lemma_fresh_in_batch(codes, pre);
        let f = fresh_items(codes, batch);
        assert forall|k: int| 0 <= k < f.len() implies exists|m: int|
            0 <= m < batch.len() && #[trigger] batch[m] == #[trigger] f[k] by {
            if k == fresh_items(codes, pre).len() {
                assert(batch[batch.len() - 1] == f[k]);
            } else {
                let m = choose|m: int|
                    0 <= m < pre.len() && #[trigger] pre[m]
                        == #[trigger] fresh_items(codes, pre)[k];
                assert(batch[m] == f[k]);
            }
        }
    }
}

} // verus!
