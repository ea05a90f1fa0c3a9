//! The history store kept across runs: one row per entry id, in insertion order.

use vstd::prelude::*;
use crate::command::{exe_path_of, HostFacts};
use crate::model::{clone_opt, opt_view, or_else, DisabledRecord, StartupItem, StartupRecord, StartupSource};
use crate::naming::{friendly_app_name, friendly_name, opt_str, version_name_of};
use crate::command::executable_path_from_command;
use crate::records::{clone_record, ItemView, RecordView};
use crate::order::{as_ints, fold_ascii, fold_ascii_chars, is_stable_order, reorder, sorted_by_keys, stable_order};
use crate::text::{chars_eq, chars_of};

verus! {

broadcast use vstd::string::group_string_axioms;

/// The index of the first row at or after `i` with `id`, or -1.
pub open spec fn index_of_id_from(rows: Seq<RecordView>, id: Seq<char>, i: int) -> int
    decreases rows.len() - i,
{
    if i < 0 || i >= rows.len() {
        -1
    } else if rows[i].id == id {
        i
    } else {
        index_of_id_from(rows, id, i + 1)
    }
}

/// The index of the first row with `id`, or -1.
pub open spec fn index_of_id(rows: Seq<RecordView>, id: Seq<char>) -> int {
    index_of_id_from(rows, id, 0)
}

/// The row with `id`, if any.
pub open spec fn lookup_row(rows: Seq<RecordView>, id: Seq<char>) -> Option<RecordView> {
    let k = index_of_id(rows, id);
    if k >= 0 { Some(rows[k]) } else { None }
}

/// No two rows share an id.
pub open spec fn ids_unique(rows: Seq<RecordView>) -> bool {
    forall|i: int, j: int| 0 <= i < j < rows.len() ==> rows[i].id != rows[j].id
}

proof fn lemma_index_of_id_from(rows: Seq<RecordView>, id: Seq<char>, i: int)
    requires
        0 <= i,
    ensures
        index_of_id_from(rows, id, i) == -1 || i <= index_of_id_from(rows, id, i) < rows.len(),
        index_of_id_from(rows, id, i) >= 0 ==> rows[index_of_id_from(rows, id, i)].id == id,
        forall|j: int| i <= j < rows.len() && (index_of_id_from(rows, id, i) < 0 || j < index_of_id_from(rows, id, i))
            ==> rows[j].id != id,
    decreases rows.len() - i,
{
    if i < rows.len() && rows[i].id != id {
        lemma_index_of_id_from(rows, id, i + 1);
    }
}

/// `index_of_id` finds the first row with the id, or says there is none.
pub proof fn lemma_index_of_id(rows: Seq<RecordView>, id: Seq<char>)
    ensures
        -1 <= index_of_id(rows, id) < rows.len(),
        index_of_id(rows, id) >= 0 ==> rows[index_of_id(rows, id)].id == id,
        forall|j: int| 0 <= j < rows.len() && (index_of_id(rows, id) < 0 || j < index_of_id(rows, id))
            ==> rows[j].id != id,
{
    lemma_index_of_id_from(rows, id, 0);
}

proof fn lemma_same_ids_same_index(a: Seq<RecordView>, b: Seq<RecordView>, id: Seq<char>, i: int)
    requires
        a.len() == b.len(),
        forall|j: int| 0 <= j < a.len() ==> a[j].id == b[j].id,
    ensures
        index_of_id_from(a, id, i) == index_of_id_from(b, id, i),
    decreases a.len() - i,
{
    if 0 <= i < a.len() {
        lemma_same_ids_same_index(a, b, id, i + 1);
    }
}

proof fn lemma_push_keeps_index(a: Seq<RecordView>, x: RecordView, id: Seq<char>, i: int)
    requires
        index_of_id_from(a, id, i) >= 0,
    ensures
        index_of_id_from(a.push(x), id, i) == index_of_id_from(a, id, i),
    decreases a.len() - i,
{
    if 0 <= i < a.len() && a[i].id != id {
        lemma_push_keeps_index(a, x, id, i + 1);
    }
}

proof fn lemma_push_finds_new(a: Seq<RecordView>, x: RecordView, i: int)
    requires
        0 <= i <= a.len(),
        index_of_id_from(a, x.id, i) == -1,
    ensures
        index_of_id_from(a.push(x), x.id, i) == a.len(),
    decreases a.len() - i,
{
    if i < a.len() {
        lemma_push_finds_new(a, x, i + 1);
    }
}

/// The rows after replacing the row at `k` by one with the same id.
proof fn lemma_update_keeps_index(rows: Seq<RecordView>, k: int, row: RecordView, id: Seq<char>)
    requires
        0 <= k < rows.len(),
        row.id == rows[k].id,
    ensures
        index_of_id(rows.update(k, row), id) == index_of_id(rows, id),
{
    lemma_same_ids_same_index(rows.update(k, row), rows, id, 0);
}

/// The history store never forgets an entry: after recording a sighting, marking an
/// entry disabled, clearing that mark or inserting a row, every id that had a row still
/// has one.
pub proof fn lemma_history_keeps_entries(
    rows: Seq<RecordView>,
    item: ItemView,
    row: RecordView,
    id: Seq<char>,
    other: Seq<char>,
    command: Option<Seq<char>>,
    original_path: Option<Seq<char>>,
    backup_path: Option<Seq<char>>,
    now: Seq<char>,
)
    requires
        index_of_id(rows, other) >= 0,
    ensures
        index_of_id(after_seen(rows, item, now), other) >= 0,
        index_of_id(after_disabled(rows, id, command, original_path, backup_path, now), other) >= 0,
        index_of_id(after_cleared(rows, id, now), other) >= 0,
        index_of_id(after_insert(rows, row), other) >= 0,
{
    lemma_index_of_id(rows, item.id);
    lemma_index_of_id(rows, id);
    lemma_index_of_id(rows, other);
    let k = index_of_id(rows, item.id);
    if k >= 0 {
        lemma_update_keeps_index(rows, k, seen_again(rows[k], item, now), other);
    } else {
        lemma_push_keeps_index(rows, seen_row(item, now), other, 0);
    }
    let j = index_of_id(rows, id);
    if j >= 0 {
        lemma_update_keeps_index(rows, j, disabled_row(rows[j], command, original_path, backup_path, now), other);
        lemma_update_keeps_index(rows, j, cleared_row(rows[j], now), other);
    }
    if index_of_id(rows, row.id) < 0 {
        lemma_push_keeps_index(rows, row, other, 0);
    }
}

/// What is read back after a write: a sighting of `item` leaves its row as `seen_row` or
/// `seen_again` says; marking a remembered entry disabled leaves it disabled at `now`,
/// with the pieces given; clearing the mark leaves it not disabled and without backup.
pub proof fn lemma_read_after_write(
    rows: Seq<RecordView>,
    item: ItemView,
    id: Seq<char>,
    command: Option<Seq<char>>,
    original_path: Option<Seq<char>>,
    backup_path: Option<Seq<char>>,
    now: Seq<char>,
)
    ensures
        lookup_row(after_seen(rows, item, now), item.id) == Some(match lookup_row(rows, item.id) {
            Some(old) => seen_again(old, item, now),
            None => seen_row(item, now),
        }),
        lookup_row(rows, id) matches Some(old) ==> lookup_row(
            after_disabled(rows, id, command, original_path, backup_path, now),
            id,
        ) == Some(disabled_row(old, command, original_path, backup_path, now)),
        lookup_row(rows, id) matches Some(old) ==> lookup_row(after_cleared(rows, id, now), id) == Some(
            cleared_row(old, now),
        ),
        lookup_row(rows, id) is None ==> after_disabled(rows, id, command, original_path, backup_path, now) == rows
            && after_cleared(rows, id, now) == rows,
{
    lemma_index_of_id(rows, item.id);
    lemma_index_of_id(rows, id);
    let k = index_of_id(rows, item.id);
    if k >= 0 {
        lemma_update_keeps_index(rows, k, seen_again(rows[k], item, now), item.id);
    } else {
        lemma_push_finds_new(rows, seen_row(item, now), 0);
    }
    let j = index_of_id(rows, id);
    if j >= 0 {
        lemma_update_keeps_index(rows, j, disabled_row(rows[j], command, original_path, backup_path, now), id);
        lemma_update_keeps_index(rows, j, cleared_row(rows[j], now), id);
    }
}

proof fn lemma_push_keeps_absent(a: Seq<RecordView>, x: RecordView, id: Seq<char>, i: int)
    requires
        0 <= i,
        index_of_id_from(a, id, i) == -1,
        x.id != id,
    ensures
        index_of_id_from(a.push(x), id, i) == -1,
    decreases a.len() + 1 - i,
{
    if i < a.len() {
        assert(a.push(x)[i] == a[i]);
        lemma_push_keeps_absent(a, x, id, i + 1);
    } else if i == a.len() {
        assert(a.push(x)[i] == x);
        assert(index_of_id_from(a.push(x), id, i + 1) == -1);
    }
}

/// A change to the row of one entry leaves every other entry's row as it was: a
/// sighting of `item`, marking `other` disabled and clearing that mark.
pub proof fn lemma_changes_keep_other_rows(
    rows: Seq<RecordView>,
    item: ItemView,
    other: Seq<char>,
    id: Seq<char>,
    command: Option<Seq<char>>,
    original_path: Option<Seq<char>>,
    backup_path: Option<Seq<char>>,
    now: Seq<char>,
)
    ensures
        item.id != id ==> lookup_row(after_seen(rows, item, now), id) == lookup_row(rows, id),
        other != id ==> lookup_row(after_disabled(rows, other, command, original_path, backup_path, now), id)
            == lookup_row(rows, id),
        other != id ==> lookup_row(after_cleared(rows, other, now), id) == lookup_row(rows, id),
{
    lemma_index_of_id(rows, item.id);
    lemma_index_of_id(rows, other);
    lemma_index_of_id(rows, id);
    let k = index_of_id(rows, item.id);
    if item.id != id {
        if k >= 0 {
            lemma_update_keeps_index(rows, k, seen_again(rows[k], item, now), id);
        } else if index_of_id(rows, id) >= 0 {
            lemma_push_keeps_index(rows, seen_row(item, now), id, 0);
        } else {
            lemma_push_keeps_absent(rows, seen_row(item, now), id, 0);
        }
    }
    let j = index_of_id(rows, other);
    if other != id && j >= 0 {
        lemma_update_keeps_index(rows, j, disabled_row(rows[j], command, original_path, backup_path, now), id);
        lemma_update_keeps_index(rows, j, cleared_row(rows[j], now), id);
    }
}

/// A sighting keeps one row per id.
pub proof fn lemma_seen_keeps_ids_unique(rows: Seq<RecordView>, item: ItemView, now: Seq<char>)
    requires
        ids_unique(rows),
    ensures
        ids_unique(after_seen(rows, item, now)),
{
    lemma_index_of_id(rows, item.id);
    let k = index_of_id(rows, item.id);
    let after = after_seen(rows, item, now);
    if k >= 0 {
        assert forall|i: int, j: int| 0 <= i < j < after.len() implies after[i].id != after[j].id by {
            assert(after[i].id == rows[i].id && after[j].id == rows[j].id);
        }
    } else {
        assert forall|i: int, j: int| 0 <= i < j < after.len() implies after[i].id != after[j].id by {
            if j == rows.len() {
                assert(after[i] == rows[i]);
            } else {
                assert(after[i] == rows[i] && after[j] == rows[j]);
            }
        }
    }
}

/// The row that a first sighting of `item` at time `now` creates.
pub open spec fn seen_row(item: ItemView, now: Seq<char>) -> RecordView {
    RecordView {
        id: item.id,
        source: item.source,
        name: item.name,
        raw_name: item.raw_name,
        value_name: item.raw_name,
        command: item.command,
        original_path: item.path,
        backup_path: None,
        app_path: item.app_path,
        disabled_at: None,
        last_seen_at: Some(now),
        created_at: now,
        updated_at: now,
    }
}

/// A row after a new sighting of `item` at time `now`: source and name are replaced,
/// every other piece that the item carries replaces the remembered one, the rest is kept.
pub open spec fn seen_again(old: RecordView, item: ItemView, now: Seq<char>) -> RecordView {
    RecordView {
        source: item.source,
        name: item.name,
        raw_name: or_else(item.raw_name, old.raw_name),
        value_name: or_else(item.raw_name, old.value_name),
        command: or_else(item.command, old.command),
        original_path: or_else(item.path, old.original_path),
        app_path: or_else(item.app_path, old.app_path),
        last_seen_at: Some(now),
        updated_at: now,
        ..old
    }
}

/// The rows after a sighting of `item` at time `now`.
pub open spec fn after_seen(rows: Seq<RecordView>, item: ItemView, now: Seq<char>) -> Seq<RecordView> {
    let k = index_of_id(rows, item.id);
    if k >= 0 {
        rows.update(k, seen_again(rows[k], item, now))
    } else {
        rows.push(seen_row(item, now))
    }
}

/// A row marked disabled at `now`, with the pieces given replacing the remembered ones.
pub open spec fn disabled_row(
    old: RecordView,
    command: Option<Seq<char>>,
    original_path: Option<Seq<char>>,
    backup_path: Option<Seq<char>>,
    now: Seq<char>,
) -> RecordView {
    RecordView {
        disabled_at: Some(now),
        command: or_else(command, old.command),
        original_path: or_else(original_path, old.original_path),
        backup_path: or_else(backup_path, old.backup_path),
        updated_at: now,
        ..old
    }
}

/// A row no longer disabled, its backup forgotten, as of `now`.
pub open spec fn cleared_row(old: RecordView, now: Seq<char>) -> RecordView {
    RecordView { disabled_at: None, backup_path: None, updated_at: now, ..old }
}

/// `rows` with the row of `id`, if any, replaced by `new_row`.
pub open spec fn replace_row(rows: Seq<RecordView>, id: Seq<char>, new_row: RecordView) -> Seq<RecordView> {
    let k = index_of_id(rows, id);
    if k >= 0 { rows.update(k, new_row) } else { rows }
}

/// The rows after marking `id` disabled.
pub open spec fn after_disabled(
    rows: Seq<RecordView>,
    id: Seq<char>,
    command: Option<Seq<char>>,
    original_path: Option<Seq<char>>,
    backup_path: Option<Seq<char>>,
    now: Seq<char>,
) -> Seq<RecordView> {
    match lookup_row(rows, id) {
        Some(old) => replace_row(rows, id, disabled_row(old, command, original_path, backup_path, now)),
        None => rows,
    }
}

/// The rows after clearing the disabled mark of `id`.
pub open spec fn after_cleared(rows: Seq<RecordView>, id: Seq<char>, now: Seq<char>) -> Seq<RecordView> {
    match lookup_row(rows, id) {
        Some(old) => replace_row(rows, id, cleared_row(old, now)),
        None => rows,
    }
}

/// The rows after inserting `row` unless its id is already present.
pub open spec fn after_insert(rows: Seq<RecordView>, row: RecordView) -> Seq<RecordView> {
    if index_of_id(rows, row.id) >= 0 { rows } else { rows.push(row) }
}

/// The key by which remembered entries are listed: the name, ASCII case folded (SQLite's
/// `NOCASE` order).
pub open spec fn name_keys(rows: Seq<RecordView>) -> Seq<(u8, Seq<char>)> {
    rows.map_values(|r: RecordView| (0u8, fold_ascii(r.name)))
}

/// The row that an entry of the older state file becomes at time `now`. A registry
/// entry gets the friendly name of its value name and command, the program that the
/// command runs, and its value name; a shortcut keeps its name, its original path also
/// serving as command and program path. Both are remembered as disabled when they were.
pub open spec fn legacy_row(
    record: DisabledRecord,
    now: Seq<char>,
    versions: Seq<(Seq<char>, Seq<char>)>,
    env: Seq<(Seq<char>, Seq<char>)>,
) -> RecordView {
    match record {
        DisabledRecord::Registry { id, name, value_name, command, disabled_at } => {
            let app_path = exe_path_of(command@, env);
            RecordView {
                id: id@,
                source: StartupSource::Registry,
                name: friendly_name(name@, Some(command@), app_path, version_name_of(versions, app_path), env),
                raw_name: Some(name@),
                value_name: Some(value_name@),
                command: Some(command@),
                original_path: None,
                backup_path: None,
                app_path: app_path,
                disabled_at: Some(disabled_at@),
                last_seen_at: None,
                created_at: now,
                updated_at: now,
            }
        },
        DisabledRecord::StartupFolder { id, name, original_path, backup_path, disabled_at } => {
            RecordView {
                id: id@,
                source: StartupSource::StartupFolder,
                name: name@,
                raw_name: Some(name@),
                value_name: None,
                command: Some(original_path@),
                original_path: Some(original_path@),
                backup_path: Some(backup_path@),
                app_path: Some(original_path@),
                disabled_at: Some(disabled_at@),
                last_seen_at: None,
                created_at: now,
                updated_at: now,
            }
        },
    }
}

/// The rows after inserting each of `new_rows` in order, each unless its id is present.
pub open spec fn insert_all(rows: Seq<RecordView>, new_rows: Seq<RecordView>) -> Seq<RecordView>
    decreases new_rows.len(),
{
    if new_rows.len() == 0 {
        rows
    } else {
        after_insert(insert_all(rows, new_rows.drop_last()), new_rows.last())
    }
}

/// The rows that the entries of the older state file become.
pub open spec fn legacy_rows(
    records: Seq<DisabledRecord>,
    now: Seq<char>,
    versions: Seq<(Seq<char>, Seq<char>)>,
    env: Seq<(Seq<char>, Seq<char>)>,
) -> Seq<RecordView> {
    records.map_values(|r: DisabledRecord| legacy_row(r, now, versions, env))
}

/// The history store: one row per id.
pub struct RecordStore {
    rows: Vec<StartupRecord>,
}

impl View for RecordStore {
    type V = Seq<RecordView>;

    closed spec fn view(&self) -> Seq<RecordView> {
        self.rows@.map_values(|r: StartupRecord| r@)
    }
}

impl RecordStore {
    #[verifier::type_invariant]
    closed spec fn unique_ids(self) -> bool {
        ids_unique(self@)
    }

    /// An empty store.
    pub fn new() -> (s: RecordStore)
        ensures
            s@ == Seq::<RecordView>::empty(),
    {
        let s = RecordStore { rows: Vec::new() };
        assert(s@ =~= Seq::<RecordView>::empty());
        s
    }

    /// How many entries the store remembers.
    pub fn len(&self) -> (n: usize)
        ensures
            n == self@.len(),
    {
        self.rows.len()
    }

    /// Whether the store remembers nothing.
    pub fn is_empty(&self) -> (b: bool)
        ensures
            b == (self@.len() == 0),
    {
        self.rows.len() == 0
    }

    fn find(&self, id: &Vec<char>) -> (r: Option<usize>)
        ensures
            match r {
                Some(k) => k as int == index_of_id(self@, id@) && k < self@.len(),
                None => index_of_id(self@, id@) == -1,
            },
    {
        proof {
            lemma_index_of_id(self@, id@);
        }
        let mut k: usize = 0;
        while k < self.rows.len()
            invariant
                k <= self.rows@.len(),
                self@.len() == self.rows@.len(),
                forall|j: int| 0 <= j < k ==> self@[j].id != id@,
                -1 <= index_of_id(self@, id@) < self@.len(),
                index_of_id(self@, id@) >= 0 ==> self@[index_of_id(self@, id@)].id == id@,
                forall|j: int| 0 <= j < self@.len() && (index_of_id(self@, id@) < 0 || j < index_of_id(self@, id@))
                    ==> self@[j].id != id@,
            decreases self.rows.len() - k,
        {
            assert(self@[k as int] == self.rows@[k as int]@);
            if chars_eq(&chars_of(self.rows[k].id.as_str()), id) {
                return Some(k);
            }
            k = k + 1;
        }
        None
    }

    /// The row remembered for `id`, if any.
    pub fn load_record(&self, id: &str) -> (r: Option<StartupRecord>)
        ensures
            match r {
                Some(rec) => lookup_row(self@, id@) == Some(rec@),
                None => lookup_row(self@, id@) is None,
            },
    {
        match self.find(&chars_of(id)) {
            Some(k) => {
                assert(self@[k as int] == self.rows@[k as int]@);
                Some(clone_record(&self.rows[k]))
            },
            None => None,
        }
    }

    /// Every row, in insertion order; no two share an id.
    pub fn records(&self) -> (r: Vec<StartupRecord>)
        ensures
            r@.map_values(|x: StartupRecord| x@) == self@,
            ids_unique(self@),
    {
        proof {
            use_type_invariant(self);
        }
        let mut r: Vec<StartupRecord> = Vec::new();
        let mut k: usize = 0;
        while k < self.rows.len()
            invariant
                k <= self.rows@.len(),
                self@.len() == self.rows@.len(),
                r@.len() == k,
                r@.map_values(|x: StartupRecord| x@) == self@.take(k as int),
            decreases self.rows.len() - k,
        {
            assert(self@[k as int] == self.rows@[k as int]@);
            let c = clone_record(&self.rows[k]);
            r.push(c);
            k = k + 1;
            assert(r@.map_values(|x: StartupRecord| x@) =~= self@.take(k as int));
        }
        assert(self@.take(self@.len() as int) =~= self@);
        r
    }

    /// Every row, ordered by ASCII-case-folded name, rows with equal keys in insertion order.
    pub fn records_by_name(&self) -> (r: Vec<StartupRecord>)
        ensures
            r@.map_values(|x: StartupRecord| x@) == sorted_by_keys(self@, name_keys(self@)),
            ids_unique(self@),
    {
        proof {
            use_type_invariant(self);
        }
        let mut keys: Vec<(u8, Vec<char>)> = Vec::new();
        let mut i: usize = 0;
        while i < self.rows.len()
            invariant
                i <= self.rows@.len(),
                self@.len() == self.rows@.len(),
                keys@.len() == i,
                forall|j: int| 0 <= j < i ==> (keys@[j].0, keys@[j].1@) == (0u8, fold_ascii(#[trigger] self@[j].name)),
            decreases self.rows.len() - i,
        {
            assert(self@[i as int] == self.rows@[i as int]@);
            keys.push((0u8, fold_ascii_chars(&chars_of(self.rows[i].name.as_str()))));
            i = i + 1;
        }
        let ghost kv = keys@.map_values(|k: (u8, Vec<char>)| (k.0, k.1@));
        assert(kv =~= name_keys(self@));
        let order = stable_order(&keys);
        let ghost ov = as_ints(order@);
        let mut out: Vec<StartupRecord> = Vec::new();
        let mut j: usize = 0;
        while j < order.len()
            invariant
                j <= order@.len(),
                ov == as_ints(order@),
                is_stable_order(kv, ov),
                kv.len() == self@.len(),
                self@.len() == self.rows@.len(),
                out@.map_values(|x: StartupRecord| x@) == reorder(self@, ov.take(j as int)),
            decreases order.len() - j,
        {
            assert(ov[j as int] == order@[j as int] as int);
            assert(0 <= ov[j as int] < kv.len());
            let rec = clone_record(&self.rows[order[j]]);
            assert(self@[ov[j as int]] == rec@);
            let ghost prev = out@.map_values(|x: StartupRecord| x@);
            out.push(rec);
            assert(out@.map_values(|x: StartupRecord| x@) =~= prev.push(rec@));
            assert(ov.take(j + 1) =~= ov.take(j as int).push(ov[j as int]));
            assert(out@.map_values(|x: StartupRecord| x@) =~= reorder(self@, ov.take(j + 1)));
            j = j + 1;
        }
        assert(ov.take(order.len() as int) =~= ov);
        out
    }

    /// Remembers an entry of the older state file (see `legacy_row`) unless its id is
    /// already remembered.
    pub fn insert_legacy_record(&mut self, record: &DisabledRecord, now: &str, facts: &HostFacts)
        ensures
            final(self)@ == after_insert(old(self)@, legacy_row(*record, now@, facts.version_names@, facts.env@)),
    {
        let row = match record {
            DisabledRecord::Registry { id, name, value_name, command, disabled_at } => {
                let app_path = executable_path_from_command(command.as_str(), facts);
                let app_path_str = match &app_path {
                    Some(p) => Some(p.as_str()),
                    None => None,
                };
                let friendly = friendly_app_name(name.as_str(), Some(command.as_str()), app_path_str, facts);
                StartupRecord {
                    id: id.clone(),
                    source: StartupSource::Registry,
                    name: friendly,
                    raw_name: Some(name.clone()),
                    value_name: Some(value_name.clone()),
                    command: Some(command.clone()),
                    original_path: None,
                    backup_path: None,
                    app_path: app_path,
                    disabled_at: Some(disabled_at.clone()),
                    last_seen_at: None,
                    created_at: now.to_string(),
                    updated_at: now.to_string(),
                }
            },
            DisabledRecord::StartupFolder { id, name, original_path, backup_path, disabled_at } => {
                StartupRecord {
                    id: id.clone(),
                    source: StartupSource::StartupFolder,
                    name: name.clone(),
                    raw_name: Some(name.clone()),
                    value_name: None,
                    command: Some(original_path.clone()),
                    original_path: Some(original_path.clone()),
                    backup_path: Some(backup_path.clone()),
                    app_path: Some(original_path.clone()),
                    disabled_at: Some(disabled_at.clone()),
                    last_seen_at: None,
                    created_at: now.to_string(),
                    updated_at: now.to_string(),
                }
            },
        };
        assert(row@ == legacy_row(*record, now@, facts.version_names@, facts.env@));
        self.insert_row(row);
    }

    /// Brings the entries of the older state file into a store that remembers nothing yet;
    /// a store that remembers something is left as it is.
    pub fn migrate_legacy_records(&mut self, records: &Vec<DisabledRecord>, now: &str, facts: &HostFacts)
        ensures
            old(self)@.len() > 0 ==> final(self)@ == old(self)@,
            old(self)@.len() == 0 ==> final(self)@ == insert_all(
                old(self)@,
                legacy_rows(records@, now@, facts.version_names@, facts.env@),
            ),
    {
        if self.rows.len() > 0 {
            return;
        }
        let ghost start = self@;
        let ghost all = legacy_rows(records@, now@, facts.version_names@, facts.env@);
        let mut i: usize = 0;
        while i < records.len()
            invariant
                i <= records@.len(),
                all == legacy_rows(records@, now@, facts.version_names@, facts.env@),
                self@ == insert_all(start, all.take(i as int)),
            decreases records.len() - i,
        {
            assert(all.take(i + 1).drop_last() =~= all.take(i as int));
            assert(all.take(i + 1).last() == legacy_row(records@[i as int], now@, facts.version_names@, facts.env@));
            self.insert_legacy_record(&records[i], now, facts);
            i = i + 1;
        }
        assert(all.take(records.len() as int) =~= all);
    }

    fn set_row(&mut self, k: usize, row: StartupRecord)
        requires
            k < old(self)@.len(),
            row@.id == old(self)@[k as int].id,
        ensures
            final(self)@ == old(self)@.update(k as int, row@),
    {
        proof {
            use_type_invariant(&*self);
        }
        let ghost before = self@;
        let mut rows: Vec<StartupRecord> = Vec::new();
        std::mem::swap(&mut rows, &mut self.rows);
        rows.set(k, row);
        assert(rows@.map_values(|r: StartupRecord| r@) =~= before.update(k as int, row@));
        self.rows = rows;
    }

    fn push_row(&mut self, row: StartupRecord)
        requires
            index_of_id(old(self)@, row@.id) == -1,
        ensures
            final(self)@ == old(self)@.push(row@),
    {
        proof {
            use_type_invariant(&*self);
            lemma_index_of_id(self@, row@.id);
        }
        let ghost before = self@;
        let mut rows: Vec<StartupRecord> = Vec::new();
        std::mem::swap(&mut rows, &mut self.rows);
        rows.push(row);
        assert(rows@.map_values(|r: StartupRecord| r@) =~= before.push(row@));
        self.rows = rows;
    }

    /// Adds `row` unless a row with its id is already remembered; says whether it did.
    pub fn insert_row(&mut self, row: StartupRecord) -> (added: bool)
        ensures
            final(self)@ == after_insert(old(self)@, row@),
            added == (index_of_id(old(self)@, row@.id) < 0),
    {
        match self.find(&chars_of(row.id.as_str())) {
            Some(_) => false,
            None => {
                self.push_row(row);
                true
            },
        }
    }

    /// Records a sighting of `item` at time `now` (see `after_seen`).
    pub fn upsert_seen_item(&mut self, item: &StartupItem, now: &str)
        ensures
            final(self)@ == after_seen(old(self)@, item@, now@),
    {
        proof {
            lemma_index_of_id(self@, item@.id);
        }
        match self.find(&chars_of(item.id.as_str())) {
            Some(k) => {
                let old_row = &self.rows[k];
                assert(self@[k as int] == old_row@);
                let row = StartupRecord {
                    id: old_row.id.clone(),
                    source: item.source,
                    name: item.name.clone(),
                    raw_name: or_clone_opt(&item.raw_name, &old_row.raw_name),
                    value_name: or_clone_opt(&item.raw_name, &old_row.value_name),
                    command: or_clone_opt(&item.command, &old_row.command),
                    original_path: or_clone_opt(&item.path, &old_row.original_path),
                    backup_path: clone_opt(&old_row.backup_path),
                    app_path: or_clone_opt(&item.app_path, &old_row.app_path),
                    disabled_at: clone_opt(&old_row.disabled_at),
                    last_seen_at: Some(now.to_string()),
                    created_at: old_row.created_at.clone(),
                    updated_at: now.to_string(),
                };
                assert(row@ == seen_again(self@[k as int], item@, now@));
                self.set_row(k, row);
            },
            None => {
                let row = StartupRecord {
                    id: item.id.clone(),
                    source: item.source,
                    name: item.name.clone(),
                    raw_name: clone_opt(&item.raw_name),
                    value_name: clone_opt(&item.raw_name),
                    command: clone_opt(&item.command),
                    original_path: clone_opt(&item.path),
                    backup_path: None,
                    app_path: clone_opt(&item.app_path),
                    disabled_at: None,
                    last_seen_at: Some(now.to_string()),
                    created_at: now.to_string(),
                    updated_at: now.to_string(),
                };
                assert(row@ == seen_row(item@, now@));
                self.push_row(row);
            },
        }
    }

    /// Marks the row of `id`, if any, disabled at `now`, replacing the pieces given.
    pub fn mark_disabled(
        &mut self,
        id: &str,
        command: Option<&str>,
        original_path: Option<&str>,
        backup_path: Option<&str>,
        now: &str,
    )
        ensures
            final(self)@ == after_disabled(
                old(self)@,
                id@,
                opt_str(command),
                opt_str(original_path),
                opt_str(backup_path),
                now@,
            ),
    {
        proof {
            lemma_index_of_id(self@, id@);
        }
        match self.find(&chars_of(id)) {
            Some(k) => {
                let old_row = &self.rows[k];
                assert(self@[k as int] == old_row@);
                let row = StartupRecord {
                    id: old_row.id.clone(),
                    source: old_row.source,
                    name: old_row.name.clone(),
                    raw_name: clone_opt(&old_row.raw_name),
                    value_name: clone_opt(&old_row.value_name),
                    command: or_str(command, &old_row.command),
                    original_path: or_str(original_path, &old_row.original_path),
                    backup_path: or_str(backup_path, &old_row.backup_path),
                    app_path: clone_opt(&old_row.app_path),
                    disabled_at: Some(now.to_string()),
                    last_seen_at: clone_opt(&old_row.last_seen_at),
                    created_at: old_row.created_at.clone(),
                    updated_at: now.to_string(),
                };
                assert(row@ == disabled_row(
                    self@[k as int],
                    opt_str(command),
                    opt_str(original_path),
                    opt_str(backup_path),
                    now@,
                ));
                self.set_row(k, row);
            },
            None => {},
        }
    }

    /// Clears the disabled mark and the backup path of the row of `id`, if any, as of `now`.
    pub fn clear_disabled(&mut self, id: &str, now: &str)
        ensures
            final(self)@ == after_cleared(old(self)@, id@, now@),
    {
        proof {
            lemma_index_of_id(self@, id@);
        }
        match self.find(&chars_of(id)) {
            Some(k) => {
                let old_row = &self.rows[k];
                assert(self@[k as int] == old_row@);
                let row = StartupRecord {
                    id: old_row.id.clone(),
                    source: old_row.source,
                    name: old_row.name.clone(),
                    raw_name: clone_opt(&old_row.raw_name),
                    value_name: clone_opt(&old_row.value_name),
                    command: clone_opt(&old_row.command),
                    original_path: clone_opt(&old_row.original_path),
                    backup_path: None,
                    app_path: clone_opt(&old_row.app_path),
                    disabled_at: None,
                    last_seen_at: clone_opt(&old_row.last_seen_at),
                    created_at: old_row.created_at.clone(),
                    updated_at: now.to_string(),
                };
                assert(row@ == cleared_row(self@[k as int], now@));
                self.set_row(k, row);
            },
            None => {},
        }
    }
}

fn or_clone_opt(a: &Option<String>, b: &Option<String>) -> (r: Option<String>)
    ensures
        opt_view(r) == or_else(opt_view(*a), opt_view(*b)),
{
    match a {
        Some(x) => Some(x.clone()),
        None => clone_opt(b),
    }
}

fn or_str(a: Option<&str>, b: &Option<String>) -> (r: Option<String>)
    ensures
        opt_view(r) == or_else(opt_str(a), opt_view(*b)),
{
    match a {
        Some(x) => Some(x.to_string()),
        None => clone_opt(b),
    }
}

} // verus!
