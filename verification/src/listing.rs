//! The list the user sees: present entries and remembered disabled ones, merged from the
//! history store and ordered for display.

use vstd::prelude::*;
use crate::command::HostFacts;
use crate::model::{clone_opt, StartupItem, StartupRecord};
use crate::order::{
    as_ints, is_stable_order, lemma_reorder_keeps_all, lemma_sorted_positions_distinct, lemma_stable_order_exists,
    lemma_prefix_comes_first, lemma_stable_order_sorted, lemma_text_lt_lexicographic, reorder, sorted_by_keys,
    sorted_positions, stable_order, text_lt,
};
use crate::records::{disabled_item, enrich_active_item, enriched, record_to_disabled_item, ItemView, RecordView};
use crate::store::{after_seen, ids_unique, index_of_id, lemma_changes_keep_other_rows, lemma_history_keeps_entries, lemma_seen_keeps_ids_unique, lemma_index_of_id, lemma_read_after_write, lookup_row, name_keys, seen_row, RecordStore};
use crate::text::{chars_eq, chars_of};

verus! {

/// The key by which items are shown: switched-on items first, then by name.
pub open spec fn display_key(item: ItemView) -> (u8, Seq<char>) {
    (if item.enabled { 0u8 } else { 1u8 }, item.name)
}

/// The display keys of `items`.
pub open spec fn display_keys(items: Seq<ItemView>) -> Seq<(u8, Seq<char>)> {
    items.map_values(|i: ItemView| display_key(i))
}

/// The rows after sightings of every item of `items`, in order, at time `now`.
pub open spec fn seen_all(rows: Seq<RecordView>, items: Seq<ItemView>, now: Seq<char>) -> Seq<RecordView>
    decreases items.len(),
{
    if items.len() == 0 {
        rows
    } else {
        after_seen(seen_all(rows, items.drop_last(), now), items.last(), now)
    }
}

/// The last present item with `id`, if any.
pub open spec fn last_active(active: Seq<ItemView>, id: Seq<char>) -> Option<ItemView>
    decreases active.len(),
{
    if active.len() == 0 {
        None
    } else if active.last().id == id {
        Some(active.last())
    } else {
        last_active(active.drop_last(), id)
    }
}

/// What is shown for a remembered entry: the present item with its id, enriched; else,
/// if the entry has a command, an original path or a disabled time, its disabled item;
/// else nothing.
pub open spec fn shown_for(
    record: RecordView,
    active: Seq<ItemView>,
    versions: Seq<(Seq<char>, Seq<char>)>,
    env: Seq<(Seq<char>, Seq<char>)>,
) -> Option<ItemView> {
    match last_active(active, record.id) {
        Some(a) => Some(enriched(a, record)),
        None => if record.command is Some || record.original_path is Some || record.disabled_at is Some {
            Some(disabled_item(record, versions, env))
        } else {
            None
        },
    }
}

/// What is shown for each of `records`, in order.
pub open spec fn shown_all(
    records: Seq<RecordView>,
    active: Seq<ItemView>,
    versions: Seq<(Seq<char>, Seq<char>)>,
    env: Seq<(Seq<char>, Seq<char>)>,
) -> Seq<ItemView>
    decreases records.len(),
{
    if records.len() == 0 {
        Seq::empty()
    } else {
        let prev = shown_all(records.drop_last(), active, versions, env);
        match shown_for(records.last(), active, versions, env) {
            Some(x) => prev.push(x),
            None => prev,
        }
    }
}

/// A copy of an item.
pub fn clone_item(i: &StartupItem) -> (c: StartupItem)
    ensures
        c@ == i@,
{
    StartupItem {
        id: i.id.clone(),
        name: i.name.clone(),
        raw_name: clone_opt(&i.raw_name),
        source: i.source,
        enabled: i.enabled,
        command: clone_opt(&i.command),
        path: clone_opt(&i.path),
        app_path: clone_opt(&i.app_path),
        risk_level: i.risk_level,
        risk_reason: clone_opt(&i.risk_reason),
        disabled_at: clone_opt(&i.disabled_at),
        remembered: i.remembered,
    }
}

/// The view of each item.
pub open spec fn item_views(items: Seq<StartupItem>) -> Seq<ItemView> {
    items.map_values(|i: StartupItem| i@)
}

/// The view of each record.
pub open spec fn record_views(records: Seq<StartupRecord>) -> Seq<RecordView> {
    records.map_values(|r: StartupRecord| r@)
}

fn last_active_index(active: &Vec<StartupItem>, id: &Vec<char>) -> (r: Option<usize>)
    ensures
        match r {
            Some(k) => k < active@.len() && last_active(item_views(active@), id@) == Some(active@[k as int]@),
            None => last_active(item_views(active@), id@) is None,
        },
{
    let mut k = active.len();
    assert(item_views(active@).take(active@.len() as int) =~= item_views(active@));
    while k > 0
        invariant
            k <= active@.len(),
            last_active(item_views(active@), id@) == last_active(item_views(active@).take(k as int), id@),
        decreases k,
    {
        let ghost t = item_views(active@).take(k as int);
        assert(t.last() == active@[k - 1]@);
        assert(t.drop_last() =~= item_views(active@).take(k - 1));
        if chars_eq(&chars_of(active[k - 1].id.as_str()), id) {
            return Some(k - 1);
        }
        k = k - 1;
    }
    None
}

/// What is shown for each of `records`, given the items present on the system (see
/// `shown_all`).
pub fn merge_items(records: &Vec<StartupRecord>, active: &Vec<StartupItem>, facts: &HostFacts) -> (r: Vec<StartupItem>)
    ensures
        item_views(r@) == shown_all(record_views(records@), item_views(active@), facts.version_names@, facts.env@),
{
    let ghost av = item_views(active@);
    let ghost rv = record_views(records@);
    let mut merged: Vec<StartupItem> = Vec::new();
    let mut i: usize = 0;
    while i < records.len()
        invariant
            i <= records@.len(),
            av == item_views(active@),
            rv == record_views(records@),
            item_views(merged@) == shown_all(rv.take(i as int), av, facts.version_names@, facts.env@),
        decreases records.len() - i,
    {
        let record = &records[i];
        let ghost prev = item_views(merged@);
        assert(rv.take(i + 1).drop_last() =~= rv.take(i as int));
        assert(rv.take(i + 1).last() == record@);
        match last_active_index(active, &chars_of(record.id.as_str())) {
            Some(k) => {
                let item = enrich_active_item(clone_item(&active[k]), record);
                merged.push(item);
                assert(item_views(merged@) =~= prev.push(item@));
            },
            None => {
                if record.command.is_some() || record.original_path.is_some() || record.disabled_at.is_some() {
                    let item = record_to_disabled_item(record, facts);
                    merged.push(item);
                    assert(item_views(merged@) =~= prev.push(item@));
                }
            },
        }
        i = i + 1;
    }
    assert(rv.take(records.len() as int) =~= rv);
    merged
}

/// `items` in display order: switched-on items first, then by name, and otherwise in
/// their given order.
pub fn sort_for_display(items: &Vec<StartupItem>) -> (r: Vec<StartupItem>)
    ensures
        item_views(r@) == sorted_by_keys(item_views(items@), display_keys(item_views(items@))),
{
    let mut keys: Vec<(u8, Vec<char>)> = Vec::new();
    let mut i: usize = 0;
    while i < items.len()
        invariant
            i <= items@.len(),
            keys@.len() == i,
            forall|j: int| 0 <= j < i ==> (keys@[j].0, keys@[j].1@) == display_key(#[trigger] items@[j]@),
        decreases items.len() - i,
    {
        let rank: u8 = if items[i].enabled { 0 } else { 1 };
        keys.push((rank, chars_of(items[i].name.as_str())));
        i = i + 1;
    }
    let ghost kv = keys@.map_values(|k: (u8, Vec<char>)| (k.0, k.1@));
    assert(kv =~= display_keys(item_views(items@)));
    let order = stable_order(&keys);
    let ghost ov = as_ints(order@);
    let mut out: Vec<StartupItem> = Vec::new();
    let mut j: usize = 0;
    while j < order.len()
        invariant
            j <= order@.len(),
            ov == as_ints(order@),
            is_stable_order(kv, ov),
            kv.len() == items@.len(),
            item_views(out@) == reorder(item_views(items@), ov.take(j as int)),
        decreases order.len() - j,
    {
        assert(0 <= ov[j as int] < kv.len());
        assert(ov[j as int] == order@[j as int] as int);
        let item = clone_item(&items[order[j]]);
        assert(item_views(items@)[ov[j as int]] == item@);
        let ghost prev = item_views(out@);
        out.push(item);
        assert(item_views(out@) == prev.push(item@));
        assert(ov.take(j + 1) =~= ov.take(j as int).push(ov[j as int]));
        assert(item_views(out@) =~= reorder(item_views(items@), ov.take(j + 1)));
        j = j + 1;
    }
    assert(ov.take(order.len() as int) =~= ov);
    out
}

/// What is listed for a store holding `rows` while `active` is present: the rows in
/// name order, each shown as `shown_for` says, put in display order.
pub open spec fn listed(
    rows: Seq<RecordView>,
    active: Seq<ItemView>,
    versions: Seq<(Seq<char>, Seq<char>)>,
    env: Seq<(Seq<char>, Seq<char>)>,
) -> Seq<ItemView> {
    let merged = shown_all(sorted_by_keys(rows, name_keys(rows)), active, versions, env);
    sorted_by_keys(merged, display_keys(merged))
}

/// The items shown after a scan found `active` at time `now`: every present item is
/// recorded in the store, then the store's entries, taken in name order, are merged with
/// the present items (see `shown_all`) and put in display order (see `listed`).
pub fn list_startup_items(
    store: &mut RecordStore,
    active: &Vec<StartupItem>,
    now: &str,
    facts: &HostFacts,
) -> (r: Vec<StartupItem>)
    ensures
        final(store)@ == seen_all(old(store)@, item_views(active@), now@),
        item_views(r@) == listed(final(store)@, item_views(active@), facts.version_names@, facts.env@),
        ids_unique(final(store)@),
{
    let ghost av = item_views(active@);
    let mut i: usize = 0;
    while i < active.len()
        invariant
            i <= active@.len(),
            av == item_views(active@),
            store@ == seen_all(old(store)@, av.take(i as int), now@),
        decreases active.len() - i,
    {
        assert(av.take(i + 1).drop_last() =~= av.take(i as int));
        assert(av.take(i + 1).last() == active@[i as int]@);
        store.upsert_seen_item(&active[i], now);
        i = i + 1;
    }
    assert(av.take(active.len() as int) =~= av);
    let records = store.records_by_name();
    let merged = merge_items(&records, active, facts);
    sort_for_display(&merged)
}

/// Every shown item of a record appears in what is shown for the records.
proof fn lemma_shown_all_has(
    records: Seq<RecordView>,
    active: Seq<ItemView>,
    versions: Seq<(Seq<char>, Seq<char>)>,
    env: Seq<(Seq<char>, Seq<char>)>,
    k: int,
)
    requires
        0 <= k < records.len(),
        shown_for(records[k], active, versions, env) is Some,
    ensures
        exists|j: int|
            0 <= j < shown_all(records, active, versions, env).len() && shown_all(records, active, versions, env)[j]
                == shown_for(records[k], active, versions, env)->0,
    decreases records.len(),
{
    let prev = shown_all(records.drop_last(), active, versions, env);
    if k == records.len() - 1 {
        assert(shown_all(records, active, versions, env)[prev.len() as int] == shown_for(records[k], active, versions, env)->0);
    } else {
        assert(records.drop_last()[k] == records[k]);
        lemma_shown_all_has(records.drop_last(), active, versions, env, k);
        let j = choose|j: int| 0 <= j < prev.len() && prev[j] == shown_for(records[k], active, versions, env)->0;
        assert(shown_all(records, active, versions, env)[j] == prev[j]);
    }
}

/// Every remembered entry that is shown at all is in the list: one with a present item of
/// its id is listed as that item enriched with the remembered data; a switched-off one
/// (no present item, but a command, an original path or a disabled time remembered) stays
/// listed as its disabled item, switched off and remembered.
pub proof fn lemma_remembered_entries_stay_listed(
    rows: Seq<RecordView>,
    active: Seq<ItemView>,
    versions: Seq<(Seq<char>, Seq<char>)>,
    env: Seq<(Seq<char>, Seq<char>)>,
    k: int,
)
    requires
        0 <= k < rows.len(),
        shown_for(rows[k], active, versions, env) is Some,
    ensures
        exists|j: int|
            0 <= j < listed(rows, active, versions, env).len() && listed(rows, active, versions, env)[j]
                == shown_for(rows[k], active, versions, env)->0,
        last_active(active, rows[k].id) is None ==> !shown_for(rows[k], active, versions, env)->0.enabled
            && shown_for(rows[k], active, versions, env)->0.remembered,
{
    let rec_order = sorted_positions(name_keys(rows));
    lemma_stable_order_exists(name_keys(rows));
    let recs = reorder(rows, rec_order);
    let merged = shown_all(recs, active, versions, env);
    let show_order = sorted_positions(display_keys(merged));
    lemma_stable_order_exists(display_keys(merged));
    lemma_reorder_keeps_all(rows, name_keys(rows), rec_order, k);
    let i = choose|i: int| 0 <= i < recs.len() && recs[i] == rows[k];
    lemma_shown_all_has(recs, active, versions, env, i);
    let m = choose|m: int| 0 <= m < merged.len() && merged[m] == shown_for(recs[i], active, versions, env)->0;
    lemma_reorder_keeps_all(merged, display_keys(merged), show_order, m);
    let j = choose|j: int| 0 <= j < reorder(merged, show_order).len() && reorder(merged, show_order)[j] == merged[m];
    assert(listed(rows, active, versions, env)[j] == shown_for(rows[k], active, versions, env)->0);
}

/// Every item present on the system is remembered after a listing: the store then holds
/// a row with its id.
pub proof fn lemma_present_items_remembered(rows: Seq<RecordView>, active: Seq<ItemView>, now: Seq<char>, k: int)
    requires
        0 <= k < active.len(),
    ensures
        lookup_row(seen_all(rows, active, now), active[k].id) is Some,
    decreases active.len(),
{
    let before = seen_all(rows, active.drop_last(), now);
    if k == active.len() - 1 {
        lemma_read_after_write(before, active.last(), active.last().id, None, None, None, now);
    } else {
        assert(active.drop_last()[k] == active[k]);
        lemma_present_items_remembered(rows, active.drop_last(), now, k);
        lemma_index_of_id(before, active[k].id);
        lemma_history_keeps_entries(
            before,
            active.last(),
            seen_row(active.last(), now),
            active.last().id,
            active[k].id,
            None,
            None,
            None,
            now,
        );
        lemma_index_of_id(seen_all(rows, active, now), active[k].id);
    }
}

proof fn lemma_last_active_some(active: Seq<ItemView>, k: int)
    requires
        0 <= k < active.len(),
    ensures
        last_active(active, active[k].id) is Some,
        last_active(active, active[k].id)->0.id == active[k].id,
    decreases active.len(),
{
    if active.last().id != active[k].id {
        assert(k < active.len() - 1);
        assert(active.drop_last()[k] == active[k]);
        lemma_last_active_some(active.drop_last(), k);
    }
}

/// Every item present on the system is listed: after a scan found `active`, the list
/// holds, for each present item, the last present item with its id enriched with the row
/// that the store now remembers for it.
pub proof fn lemma_present_items_listed(
    rows: Seq<RecordView>,
    active: Seq<ItemView>,
    now: Seq<char>,
    versions: Seq<(Seq<char>, Seq<char>)>,
    env: Seq<(Seq<char>, Seq<char>)>,
    k: int,
)
    requires
        0 <= k < active.len(),
    ensures
        exists|j: int|
            0 <= j < listed(seen_all(rows, active, now), active, versions, env).len()
                && listed(seen_all(rows, active, now), active, versions, env)[j] == enriched(
                last_active(active, active[k].id)->0,
                lookup_row(seen_all(rows, active, now), active[k].id)->0,
            ),
{
    let after = seen_all(rows, active, now);
    lemma_present_items_remembered(rows, active, now, k);
    lemma_index_of_id(after, active[k].id);
    let r = crate::store::index_of_id(after, active[k].id);
    lemma_last_active_some(active, k);
    lemma_remembered_entries_stay_listed(after, active, versions, env, r);
}

/// The list is in display order: every switched-on item comes before every switched-off
/// one, and items with the same state come in name order.
pub proof fn lemma_list_in_display_order(items: Seq<ItemView>, i: int, j: int)
    requires
        0 <= i < j < items.len(),
    ensures
        sorted_by_keys(items, display_keys(items)).len() == items.len(),
        sorted_by_keys(items, display_keys(items))[i].enabled || !sorted_by_keys(items, display_keys(items))[j].enabled,
        sorted_by_keys(items, display_keys(items))[i].enabled == sorted_by_keys(items, display_keys(items))[j].enabled
            ==> !text_lt(sorted_by_keys(items, display_keys(items))[j].name, sorted_by_keys(items, display_keys(items))[i].name),
{
    lemma_stable_order_exists(display_keys(items));
    lemma_stable_order_sorted(display_keys(items), sorted_positions(display_keys(items)), i, j);
}

/// No two of `items` share an id.
pub open spec fn item_ids_unique(items: Seq<ItemView>) -> bool {
    forall|i: int, j: int| 0 <= i < j < items.len() ==> items[i].id != items[j].id
}

proof fn lemma_last_active_id(active: Seq<ItemView>, id: Seq<char>)
    ensures
        last_active(active, id) matches Some(a) ==> a.id == id,
    decreases active.len(),
{
    if active.len() > 0 && active.last().id != id {
        lemma_last_active_id(active.drop_last(), id);
    }
}

/// Every item shown for `records` carries the id of one of them, and no two carry the
/// same id when the records do not.
proof fn lemma_shown_all_ids(
    records: Seq<RecordView>,
    active: Seq<ItemView>,
    versions: Seq<(Seq<char>, Seq<char>)>,
    env: Seq<(Seq<char>, Seq<char>)>,
)
    ensures
        forall|x: int| 0 <= x < shown_all(records, active, versions, env).len() ==> exists|k: int|
            0 <= k < records.len() && #[trigger] shown_all(records, active, versions, env)[x].id == records[k].id,
        ids_unique(records) ==> item_ids_unique(shown_all(records, active, versions, env)),
    decreases records.len(),
{
    if records.len() > 0 {
        let init = records.drop_last();
        let prev = shown_all(init, active, versions, env);
        let all = shown_all(records, active, versions, env);
        lemma_shown_all_ids(init, active, versions, env);
        lemma_last_active_id(active, records.last().id);
        assert forall|x: int| 0 <= x < all.len() implies exists|k: int| 0 <= k < records.len() && #[trigger] all[x].id
            == records[k].id by {
            if x < prev.len() {
                let k = choose|k: int| 0 <= k < init.len() && prev[x].id == init[k].id;
                assert(all[x] == prev[x]);
                assert(init[k] == records[k]);
            } else {
                assert(all[x].id == records[records.len() - 1].id);
            }
        }
        if ids_unique(records) {
            assert(ids_unique(init)) by {
                assert forall|i: int, j: int| 0 <= i < j < init.len() implies init[i].id != init[j].id by {
                    assert(init[i] == records[i] && init[j] == records[j]);
                }
            }
            assert forall|i: int, j: int| 0 <= i < j < all.len() implies all[i].id != all[j].id by {
                assert(all[i] == prev[i]);
                let k = choose|k: int| 0 <= k < init.len() && prev[i].id == init[k].id;
                assert(init[k] == records[k]);
                if j < prev.len() {
                    assert(all[j] == prev[j]);
                } else {
                    assert(all[j].id == records[records.len() - 1].id);
                }
            }
        }
    }
}

/// Each remembered entry is listed at most once: when the store holds each id once, no
/// two listed items share an id (so every present entry, being remembered, shows once).
pub proof fn lemma_each_entry_listed_once(
    rows: Seq<RecordView>,
    active: Seq<ItemView>,
    versions: Seq<(Seq<char>, Seq<char>)>,
    env: Seq<(Seq<char>, Seq<char>)>,
)
    requires
        ids_unique(rows),
    ensures
        item_ids_unique(listed(rows, active, versions, env)),
{
    let keys = name_keys(rows);
    let recs = sorted_by_keys(rows, keys);
    lemma_stable_order_exists(keys);
    assert(ids_unique(recs)) by {
        assert forall|i: int, j: int| 0 <= i < j < recs.len() implies recs[i].id != recs[j].id by {
            lemma_sorted_positions_distinct(keys, i, j);
        }
    }
    let merged = shown_all(recs, active, versions, env);
    lemma_shown_all_ids(recs, active, versions, env);
    let dk = display_keys(merged);
    lemma_stable_order_exists(dk);
    let out = sorted_by_keys(merged, dk);
    assert forall|i: int, j: int| 0 <= i < j < out.len() implies out[i].id != out[j].id by {
        lemma_sorted_positions_distinct(dk, i, j);
    }
}

/// A switched-off entry that is not present on the system is listed exactly once, as
/// switched off and remembered, with the time it was switched off.
pub proof fn lemma_switched_off_listed_once(
    rows: Seq<RecordView>,
    active: Seq<ItemView>,
    versions: Seq<(Seq<char>, Seq<char>)>,
    env: Seq<(Seq<char>, Seq<char>)>,
    id: Seq<char>,
)
    requires
        ids_unique(rows),
        lookup_row(rows, id) matches Some(r) && r.disabled_at is Some,
        last_active(active, id) is None,
    ensures
        exists|j: int|
            0 <= j < listed(rows, active, versions, env).len() && #[trigger] listed(rows, active, versions, env)[j].id
                == id && !listed(rows, active, versions, env)[j].enabled && listed(rows, active, versions, env)[j].remembered
                && listed(rows, active, versions, env)[j].disabled_at == lookup_row(rows, id)->0.disabled_at,
        forall|i: int, j: int|
            0 <= i < listed(rows, active, versions, env).len() && 0 <= j < listed(rows, active, versions, env).len()
                && #[trigger] listed(rows, active, versions, env)[i].id == id && #[trigger] listed(rows, active, versions, env)[j].id
                == id ==> i == j,
{
    lemma_index_of_id(rows, id);
    let k = index_of_id(rows, id);
    lemma_remembered_entries_stay_listed(rows, active, versions, env, k);
    lemma_each_entry_listed_once(rows, active, versions, env);
    let l = listed(rows, active, versions, env);
    let j = choose|j: int| 0 <= j < l.len() && l[j] == shown_for(rows[k], active, versions, env)->0;
    assert(l[j].id == id);
    assert forall|a: int, b: int| 0 <= a < l.len() && 0 <= b < l.len() && #[trigger] l[a].id == id && #[trigger] l[b].id == id
        implies a == b by {
        if a < b {
            assert(l[a].id != l[b].id);
        } else if b < a {
            assert(l[b].id != l[a].id);
        }
    }
}

/// A listing's sightings keep one row per id, never change the row of an entry that is
/// not present, and keep every remembered entry's disabled time.
pub proof fn lemma_listing_keeps_rows(rows: Seq<RecordView>, active: Seq<ItemView>, now: Seq<char>, id: Seq<char>)
    ensures
        ids_unique(rows) ==> ids_unique(seen_all(rows, active, now)),
        last_active(active, id) is None ==> lookup_row(seen_all(rows, active, now), id) == lookup_row(rows, id),
        lookup_row(rows, id) matches Some(r) ==> (lookup_row(seen_all(rows, active, now), id) matches Some(r2)
            && r2.disabled_at == r.disabled_at),
    decreases active.len(),
{
    if active.len() > 0 {
        let init = active.drop_last();
        let before = seen_all(rows, init, now);
        lemma_listing_keeps_rows(rows, init, now, id);
        if ids_unique(rows) {
            lemma_seen_keeps_ids_unique(before, active.last(), now);
        }
        lemma_changes_keep_other_rows(before, active.last(), id, id, None, None, None, now);
        lemma_read_after_write(before, active.last(), id, None, None, None, now);
    }
}

/// A switched-off entry that is not present stays listed as switched off: a listing over
/// a store that remembers it switched off (each id once) shows it exactly once, switched
/// off and remembered, with the time it was switched off, and leaves that time in the
/// store.
pub proof fn lemma_switched_off_stays_listed(
    rows: Seq<RecordView>,
    active: Seq<ItemView>,
    now: Seq<char>,
    versions: Seq<(Seq<char>, Seq<char>)>,
    env: Seq<(Seq<char>, Seq<char>)>,
    id: Seq<char>,
)
    requires
        ids_unique(rows),
        lookup_row(rows, id) matches Some(r) && r.disabled_at is Some,
        last_active(active, id) is None,
    ensures
        lookup_row(seen_all(rows, active, now), id) == lookup_row(rows, id),
        exists|j: int|
            0 <= j < listed(seen_all(rows, active, now), active, versions, env).len()
                && #[trigger] listed(seen_all(rows, active, now), active, versions, env)[j].id == id
                && !listed(seen_all(rows, active, now), active, versions, env)[j].enabled
                && listed(seen_all(rows, active, now), active, versions, env)[j].remembered
                && listed(seen_all(rows, active, now), active, versions, env)[j].disabled_at
                == lookup_row(rows, id)->0.disabled_at,
        forall|i: int, j: int|
            0 <= i < listed(seen_all(rows, active, now), active, versions, env).len() && 0 <= j < listed(
                seen_all(rows, active, now),
                active,
                versions,
                env,
            ).len() && #[trigger] listed(seen_all(rows, active, now), active, versions, env)[i].id == id
                && #[trigger] listed(seen_all(rows, active, now), active, versions, env)[j].id == id ==> i == j,
{
    lemma_listing_keeps_rows(rows, active, now, id);
    lemma_switched_off_listed_once(seen_all(rows, active, now), active, versions, env, id);
}

/// Among items in the same state, the list is in `String` order of their names: an
/// item never comes after one whose name is a proper continuation of its own, and where
/// two names first differ, the earlier item has the smaller character.
pub proof fn lemma_list_in_name_order(items: Seq<ItemView>, i: int, j: int)
    requires
        0 <= i < j < items.len(),
        sorted_by_keys(items, display_keys(items))[i].enabled == sorted_by_keys(items, display_keys(items))[j].enabled,
    ensures
        ({
            let a = sorted_by_keys(items, display_keys(items))[i].name;
            let b = sorted_by_keys(items, display_keys(items))[j].name;
            &&& !(a.len() > b.len() && a.subrange(0, b.len() as int) == b)
            &&& forall|k: int|
                0 <= k < a.len() && k < b.len() && a.subrange(0, k) == b.subrange(0, k) && a[k] != b[k] ==> (a[k] as int)
                    < (b[k] as int)
        }),
{
    lemma_list_in_display_order(items, i, j);
    let a = sorted_by_keys(items, display_keys(items))[i].name;
    let b = sorted_by_keys(items, display_keys(items))[j].name;
    if a.len() > b.len() && a.subrange(0, b.len() as int) == b {
        let x = a.subrange(b.len() as int, a.len() as int);
        assert(b + x =~= a);
        lemma_prefix_comes_first(b, x);
    }
    lemma_text_lt_lexicographic(b, a);
    assert forall|k: int|
        0 <= k < a.len() && k < b.len() && a.subrange(0, k) == b.subrange(0, k) && a[k] != b[k] implies (a[k] as int)
            < (b[k] as int) by {
        if (b[k] as int) < (a[k] as int) {
            assert(b.subrange(0, k) == a.subrange(0, k));
            assert(text_lt(b, a));
        }
    }
}

} // verus!
