//! The stage enemy table of `map/tables.bin`: flagging a manager's entry so
//! that its enemies spawn from painted goop, creating the table and the entry
//! when they are missing.
use vstd::prelude::*;
use crate::jdrama::{
    Field, FieldValue, FieldValueView, FieldView, PayloadView, Record, RecordPayload, RecordView,
    field_value_view, field_view, fields_view, lemma_records_view, record_view, records_view,
};
use crate::editor::StageDocument;
use crate::text::{
    ends_with, lemma_name_before_irreflexive, lemma_name_before_total, lemma_name_before_transitive,
    name_before, name_is_before, str_ends_with, str_equal,
};

verus! {

/// Bit 0 of a `StageEnemyInfo` entry's `flags`: the entry's manager may spawn
/// its enemies from goop.
pub const SPAWN_FROM_GOOP_FLAG: i32 = 1;

/// The weight every retail entry carries; equal weights make every flagged
/// entry equally likely.
pub const SPAWN_WEIGHT: u32 = 100;

/// The object name every retail `StageEnemyInfo` entry carries.
pub open spec fn enemy_info_name() -> Seq<char> {
    "\u{6575}\u{60C5}\u{5831}"@
}

/// The object name of the `StageEnemyInfoHeader`.
pub open spec fn enemy_table_name() -> Seq<char> {
    "\u{6575}\u{51FA}\u{73FE}\u{30C6}\u{30FC}\u{30D6}\u{30EB}"@
}

/// The object name of the `tables.bin` root group.
pub open spec fn tables_root_name() -> Seq<char> {
    "\u{30C7}\u{30FC}\u{30BF}\u{30C6}\u{30FC}\u{30D6}\u{30EB}\u{7FA4}"@
}

/// The fields of a record value; none for an empty payload.
pub open spec fn fields_of_view(v: RecordView) -> Seq<FieldView> {
    match v.payload {
        PayloadView::Empty => Seq::empty(),
        PayloadView::Fields(fs) => fs,
        PayloadView::Actor(fs) => fs,
        PayloadView::Group(fs, _) => fs,
    }
}

/// The first field value named `name`.
pub open spec fn first_field(fs: Seq<FieldView>, name: Seq<char>) -> Option<FieldValueView> {
    if exists|i: int| 0 <= i < fs.len() && fs[i].name == name {
        let i = choose|i: int|
            0 <= i < fs.len() && fs[i].name == name && forall|j: int|
                0 <= j < i ==> fs[j].name != name;
        Some(fs[i].value)
    } else {
        None
    }
}

/// A `StageEnemyInfo` entry whose first `manager_name` is `manager`.
pub open spec fn entry_view(v: RecordView, manager: Seq<char>) -> bool {
    v.record_type == "StageEnemyInfo"@ && first_field(fields_of_view(v), "manager_name"@) == Some(
        FieldValueView::Str(manager),
    )
}

/// An entry whose first `flags` field has the goop spawn bit set.
pub open spec fn spawning_view(v: RecordView) -> bool {
    match first_field(fields_of_view(v), "flags"@) {
        Some(FieldValueView::I32(f)) => f & 1 != 0,
        _ => false,
    }
}

/// What a search of the table looks for.
pub enum TableTarget {
    /// The entry of a manager.
    Entry(Seq<char>),
    /// The enemy table itself, a record whose type ends with
    /// `StageEnemyInfoHeader`.
    Header,
}

pub open spec fn target_hit(v: RecordView, t: TableTarget) -> bool {
    match t {
        TableTarget::Entry(m) => entry_view(v, m),
        TableTarget::Header => ends_with(v.record_type, "StageEnemyInfoHeader"@),
    }
}

/// The child positions leading to the first record, in depth-first
/// pre-order, that the search finds.
pub open spec fn first_path(v: RecordView, t: TableTarget) -> Option<Seq<int>>
    decreases v, 1int,
{
    if target_hit(v, t) {
        Some(Seq::empty())
    } else {
        match v.payload {
            PayloadView::Group(_, cs) => first_path_in(cs, 0, t),
            _ => None,
        }
    }
}

/// The path to the first hit among the children from position `i` on.
pub open spec fn first_path_in(cs: Seq<RecordView>, i: int, t: TableTarget) -> Option<Seq<int>>
    decreases cs, cs.len() - i,
{
    if 0 <= i < cs.len() {
        match first_path(cs[i], t) {
            Some(p) => Some(seq![i] + p),
            None => first_path_in(cs, i + 1, t),
        }
    } else {
        None
    }
}

/// Whether every step of `path` goes into an existing child of a group.
pub open spec fn path_ok(v: RecordView, path: Seq<int>) -> bool
    decreases path.len(),
{
    if path.len() == 0 {
        true
    } else {
        match v.payload {
            PayloadView::Group(_, cs) => 0 <= path[0] < cs.len() && path_ok(cs[path[0]], path.drop_first()),
            _ => false,
        }
    }
}

/// The record at the end of `path`.
pub open spec fn subtree(v: RecordView, path: Seq<int>) -> RecordView
    decreases path.len(),
{
    if path.len() == 0 {
        v
    } else {
        match v.payload {
            PayloadView::Group(_, cs) => if 0 <= path[0] < cs.len() {
                subtree(cs[path[0]], path.drop_first())
            } else {
                v
            },
            _ => v,
        }
    }
}

/// The tree with the record at the end of `path` replaced by `new`.
pub open spec fn replace_at(v: RecordView, path: Seq<int>, new: RecordView) -> RecordView
    decreases path.len(),
{
    if path.len() == 0 {
        new
    } else {
        match v.payload {
            PayloadView::Group(fs, cs) => if 0 <= path[0] < cs.len() {
                RecordView {
                    payload: PayloadView::Group(
                        fs,
                        cs.update(path[0], replace_at(cs[path[0]], path.drop_first(), new)),
                    ),
                    ..v
                }
            } else {
                v
            },
            _ => v,
        }
    }
}

/// A field after setting (`enabled`) or clearing the spawn bit: only an
/// `I32` field named `flags` changes.
pub open spec fn flag_field(f: FieldView, enabled: bool) -> FieldView {
    if f.name == "flags"@ {
        match f.value {
            FieldValueView::I32(x) => FieldView {
                value: FieldValueView::I32(
                    if enabled {
                        x | 1
                    } else {
                        x & !1i32
                    },
                ),
                ..f
            },
            _ => f,
        }
    } else {
        f
    }
}

/// An entry with its spawn bit set or cleared in every `flags` field; only a
/// plain field record changes.
pub open spec fn with_spawn_flag(v: RecordView, enabled: bool) -> RecordView {
    match v.payload {
        PayloadView::Fields(fs) => RecordView {
            payload: PayloadView::Fields(fs.map_values(|f: FieldView| flag_field(f, enabled))),
            ..v
        },
        _ => v,
    }
}

/// A group with `c` appended to its children; anything else unchanged.
pub open spec fn with_child(v: RecordView, c: RecordView) -> RecordView {
    match v.payload {
        PayloadView::Group(fs, cs) => RecordView { payload: PayloadView::Group(fs, cs.push(c)), ..v },
        _ => v,
    }
}

/// A retail-style entry for `manager` with the given flags and the retail
/// weight.
pub open spec fn info_entry(manager: Seq<char>, flags: i32) -> RecordView {
    RecordView {
        record_type: "StageEnemyInfo"@,
        name: enemy_info_name(),
        payload: PayloadView::Fields(
            seq![
                FieldView { name: "manager_name"@, value: FieldValueView::Str(manager) },
                FieldView { name: "flags"@, value: FieldValueView::I32(flags) },
                FieldView { name: "weight"@, value: FieldValueView::U32(100) },
            ],
        ),
    }
}

/// A new entry for `manager` with the spawn bit set.
pub open spec fn new_entry(manager: Seq<char>) -> RecordView {
    info_entry(manager, 1)
}

/// A new enemy table holding only the entry for `manager`.
pub open spec fn new_table(manager: Seq<char>) -> RecordView {
    RecordView {
        record_type: "StageEnemyInfoHeader"@,
        name: enemy_table_name(),
        payload: PayloadView::Group(Seq::empty(), seq![new_entry(manager)]),
    }
}

/// The tables after setting or clearing a manager's goop spawn flag, or
/// `None` when nothing changes. An existing entry (the first in depth-first
/// order) has its bit moved when it differs. Without an entry, enabling
/// appends one to the first enemy table, or appends a new table holding it
/// to the root group when there is no table; disabling changes nothing.
pub open spec fn spawn_applied(v: RecordView, manager: Seq<char>, enabled: bool) -> Option<RecordView> {
    match first_path(v, TableTarget::Entry(manager)) {
        Some(p) => if spawning_view(subtree(v, p)) == enabled {
            None
        } else {
            Some(replace_at(v, p, with_spawn_flag(subtree(v, p), enabled)))
        },
        None => if !enabled {
            None
        } else {
            match first_path(v, TableTarget::Header) {
                None => if v.payload is Group {
                    Some(with_child(v, new_table(manager)))
                } else {
                    None
                },
                Some(hp) => if subtree(v, hp).payload is Group {
                    Some(replace_at(v, hp, with_child(subtree(v, hp), new_entry(manager))))
                } else {
                    None
                },
            }
        },
    }
}

// ---------------------------------------------------------------------------
// Reading records

proof fn lemma_first_field_at(fs: Seq<FieldView>, name: Seq<char>, i: int)
    requires
        0 <= i < fs.len(),
        fs[i].name == name,
        forall|j: int| 0 <= j < i ==> fs[j].name != name,
    ensures
        first_field(fs, name) == Some(fs[i].value),
{
    let k = choose|k: int|
        0 <= k < fs.len() && fs[k].name == name && forall|j: int| 0 <= j < k ==> fs[j].name != name;
    if k < i {
        assert(fs[k].name != name);
    }
    if i < k {
        assert(fs[i].name != name);
    }
}

/// The first field of a record named `name`, as its value reads it.
fn first_field_of<'a>(record: &'a Record, name: &str) -> (r: Option<&'a FieldValue>)
    ensures
        match r {
            Some(v) => first_field(fields_of_view(record_view(*record)), name@) == Some(
                field_value_view(*v),
            ),
            None => first_field(fields_of_view(record_view(*record)), name@) is None,
        },
{
    let fields = match &record.payload {
        RecordPayload::Empty => return None,
        RecordPayload::Fields { fields } => fields,
        RecordPayload::Actor { fields } => fields,
        RecordPayload::Group { fields, .. } => fields,
    };
    let ghost fv = fields_of_view(record_view(*record));
    assert(fv == fields_view(fields@));
    let mut i: usize = 0;
    while i < fields.len()
        invariant
            i <= fields.len(),
            fv == fields_view(fields@),
            fv == fields_of_view(record_view(*record)),
            forall|j: int| 0 <= j < i ==> fv[j].name != name@,
        decreases fields.len() - i,
    {
        assert(fv[i as int] == field_view(fields@[i as int]));
        if str_equal(fields[i].name.as_str(), name) {
            proof {
                lemma_first_field_at(fv, name@, i as int);
            }
            return Some(&fields[i].value);
        }
        i += 1;
    }
    None
}

fn is_entry(record: &Record, manager: &str) -> (b: bool)
    ensures
        b == entry_view(record_view(*record), manager@),
{
    if !str_equal(record.record_type.as_str(), "StageEnemyInfo") {
        return false;
    }
    match first_field_of(record, "manager_name") {
        Some(FieldValue::Str(name)) => str_equal(name.as_str(), manager),
        _ => false,
    }
}

fn is_spawning(record: &Record) -> (b: bool)
    ensures
        b == spawning_view(record_view(*record)),
{
    match first_field_of(record, "flags") {
        Some(FieldValue::I32(flags)) => *flags & 1 != 0,
        _ => false,
    }
}

/// What a search of the table looks for, with the manager's name.
pub enum TableSearch {
    Entry(String),
    Header,
}

impl View for TableSearch {
    type V = TableTarget;

    open spec fn view(&self) -> TableTarget {
        match self {
            TableSearch::Entry(m) => TableTarget::Entry(m@),
            TableSearch::Header => TableTarget::Header,
        }
    }
}

fn hits(record: &Record, search: &TableSearch) -> (b: bool)
    ensures
        b == target_hit(record_view(*record), search@),
{
    match search {
        TableSearch::Entry(m) => is_entry(record, m.as_str()),
        TableSearch::Header => str_ends_with(record.record_type.as_str(), "StageEnemyInfoHeader"),
    }
}

/// A path of child positions as integers.
pub open spec fn path_ints(p: Seq<usize>) -> Seq<int> {
    p.map_values(|x: usize| x as int)
}

/// Depth-first search for the first record the search finds: the child
/// positions leading to it.
fn find_record_path(record: &Record, search: &TableSearch) -> (p: Option<Vec<usize>>)
    ensures
        match first_path(record_view(*record), search@) {
            Some(q) => p matches Some(v) && path_ints(v@) == q,
            None => p is None,
        },
    decreases record, 1int,
{
    if hits(record, search) {
        let v: Vec<usize> = Vec::new();
        assert(path_ints(v@) =~= Seq::<int>::empty());
        return Some(v);
    }
    match &record.payload {
        RecordPayload::Group { children, .. } => {
            proof {
                lemma_records_view(children@);
            }
            find_path_in_children(children, 0, search)
        },
        _ => None,
    }
}

fn find_path_in_children(children: &Vec<Record>, i: usize, search: &TableSearch) -> (p: Option<Vec<usize>>)
    requires
        i <= children.len(),
    ensures
        match first_path_in(records_view(children@), i as int, search@) {
            Some(q) => p matches Some(v) && path_ints(v@) == q,
            None => p is None,
        },
    decreases children@, children.len() - i,
{
    proof {
        lemma_records_view(children@);
    }
    if i == children.len() {
        return None;
    }
    match find_record_path(&children[i], search) {
        Some(mut rest) => {
            let ghost q = path_ints(rest@);
            let mut v: Vec<usize> = Vec::new();
            v.push(i);
            v.append(&mut rest);
            assert(path_ints(v@) =~= seq![i as int] + q);
            Some(v)
        },
        None => find_path_in_children(children, i + 1, search),
    }
}


// ---------------------------------------------------------------------------
// Editing records

/// One edit of a record: move its spawn bit, or append a child record.
pub enum TableEdit {
    SetSpawnFlag(bool),
    AddChild(Record),
}

pub open spec fn edited(v: RecordView, e: TableEdit) -> RecordView {
    match e {
        TableEdit::SetSpawnFlag(enabled) => with_spawn_flag(v, enabled),
        TableEdit::AddChild(c) => with_child(v, record_view(c)),
    }
}
fn flagged_fields(fields: &Vec<Field>, enabled: bool) -> (r: Vec<Field>)
    ensures
        fields_view(r@) == fields_view(fields@).map_values(|f: FieldView| flag_field(f, enabled)),
{
    let mut r: Vec<Field> = Vec::new();
    let mut i: usize = 0;
    while i < fields.len()
        invariant
            i <= fields.len(),
            r@.len() == i,
            forall|k: int| 0 <= k < i ==> #[trigger] field_view(r@[k]) == flag_field(field_view(fields@[k]), enabled),
        decreases fields.len() - i,
    {
        let f = &fields[i];
        let is_flags = str_equal(f.name.as_str(), "flags");
        let value = match &f.value {
            FieldValue::I32(x) => if is_flags {
                if enabled {
                    FieldValue::I32(*x | SPAWN_FROM_GOOP_FLAG)
                } else {
                    FieldValue::I32(*x & !SPAWN_FROM_GOOP_FLAG)
                }
            } else {
                FieldValue::I32(*x)
            },
            FieldValue::Str(s) => FieldValue::Str(s.clone()),
            FieldValue::U32(u) => FieldValue::U32(*u),
            FieldValue::Other => FieldValue::Other,
        };
        r.push(Field { name: f.name.clone(), value });
        i += 1;
    }
    assert(fields_view(r@) =~= fields_view(fields@).map_values(|f: FieldView| flag_field(f, enabled)));
    r
}

fn apply_edit(record: &mut Record, edit: TableEdit)
    ensures
        record_view(*final(record)) == edited(record_view(*old(record)), edit),
{
    let ghost before = record_view(*record);
    let mut payload = RecordPayload::Empty;
    std::mem::swap(&mut payload, &mut record.payload);
    match edit {
        TableEdit::SetSpawnFlag(enabled) => match payload {
            RecordPayload::Fields { fields } => {
                let flagged = flagged_fields(&fields, enabled);
                record.payload = RecordPayload::Fields { fields: flagged };
            },
            other => {
                record.payload = other;
            },
        },
        TableEdit::AddChild(child) => match payload {
            RecordPayload::Group { fields, mut children } => {
                let ghost old_children = children@;
                children.push(child);
                proof {
                    lemma_records_view(old_children);
                    lemma_records_view(children@);
                    assert(records_view(children@) =~= records_view(old_children).push(record_view(child)));
                }
                record.payload = RecordPayload::Group { fields, children };
            },
            other => {
                record.payload = other;
            },
        },
    }
}

/// Applies `edit` to the record at the end of `path[k..]`.
fn edit_at(record: &mut Record, path: &Vec<usize>, k: usize, edit: TableEdit)
    requires
        k <= path@.len(),
        path_ok(record_view(*old(record)), path_ints(path@).skip(k as int)),
    ensures
        record_view(*final(record)) == replace_at(
            record_view(*old(record)),
            path_ints(path@).skip(k as int),
            edited(subtree(record_view(*old(record)), path_ints(path@).skip(k as int)), edit),
        ),
    decreases path@.len() - k,
{
    let ghost before = record_view(*record);
    let ghost rest = path_ints(path@).skip(k as int);
    if k == path.len() {
        assert(rest =~= Seq::<int>::empty());
        apply_edit(record, edit);
        return;
    }
    assert(rest[0] == path@[k as int] as int);
    assert(rest.drop_first() =~= path_ints(path@).skip(k + 1));
    let mut payload = RecordPayload::Empty;
    std::mem::swap(&mut payload, &mut record.payload);
    match payload {
        RecordPayload::Group { fields, mut children } => {
            let i = path[k];
            let ghost old_children = children@;
            proof {
                lemma_records_view(old_children);
            }
            let mut child = children.remove(i);
            assert(record_view(child) == records_view(old_children)[i as int]);
            edit_at(&mut child, path, k + 1, edit);
            let ghost new_child = child;
            children.insert(i, child);
            proof {
                lemma_records_view(children@);
                assert(children@ =~= old_children.update(i as int, new_child));
                assert(records_view(children@) =~= records_view(old_children).update(
                    i as int,
                    record_view(new_child),
                ));
            }
            record.payload = RecordPayload::Group { fields, children };
        },
        other => {
            record.payload = other;
        },
    }
}


// ---------------------------------------------------------------------------
// The spawn flag

proof fn lemma_first_path_ok(v: RecordView, t: TableTarget)
    ensures
        first_path(v, t) matches Some(p) ==> path_ok(v, p) && target_hit(subtree(v, p), t),
    decreases v, 1int,
{
    if !target_hit(v, t) {
        match v.payload {
            PayloadView::Group(_, cs) => {
                lemma_first_path_in_ok(cs, 0, t);
                if let Some(p) = first_path_in(cs, 0, t) {
                    assert(path_ok(v, p));
                }
            },
            _ => {},
        }
    }
}

proof fn lemma_first_path_in_ok(cs: Seq<RecordView>, i: int, t: TableTarget)
    ensures
        first_path_in(cs, i, t) matches Some(p) ==> p.len() > 0 && 0 <= p[0] < cs.len() && path_ok(
            cs[p[0]],
            p.drop_first(),
        ) && target_hit(subtree(cs[p[0]], p.drop_first()), t),
    decreases cs, cs.len() - i,
{
    if 0 <= i < cs.len() {
        lemma_first_path_ok(cs[i], t);
        match first_path(cs[i], t) {
            Some(q) => {
                assert((seq![i] + q).drop_first() =~= q);
            },
            None => {
                lemma_first_path_in_ok(cs, i + 1, t);
            },
        }
    }
}

/// The record at the end of `path[k..]`.
fn record_at<'a>(record: &'a Record, path: &Vec<usize>, k: usize) -> (r: &'a Record)
    requires
        k <= path@.len(),
        path_ok(record_view(*record), path_ints(path@).skip(k as int)),
    ensures
        record_view(*r) == subtree(record_view(*record), path_ints(path@).skip(k as int)),
    decreases path@.len() - k,
{
    let ghost rest = path_ints(path@).skip(k as int);
    if k == path.len() {
        assert(rest =~= Seq::<int>::empty());
        return record;
    }
    assert(rest[0] == path@[k as int] as int);
    assert(rest.drop_first() =~= path_ints(path@).skip(k + 1));
    match &record.payload {
        RecordPayload::Group { children, .. } => {
            proof {
                lemma_records_view(children@);
            }
            record_at(&children[path[k]], path, k + 1)
        },
        _ => record,
    }
}

/// A retail-style `StageEnemyInfo` entry for `manager`.
pub fn enemy_info_record(manager: &str, flags: i32) -> (r: Record)
    ensures
        record_view(r) == info_entry(manager@, flags),
{
    let fields = vec![
        Field { name: "manager_name".to_owned(), value: FieldValue::Str(manager.to_owned()) },
        Field { name: "flags".to_owned(), value: FieldValue::I32(flags) },
        Field { name: "weight".to_owned(), value: FieldValue::U32(SPAWN_WEIGHT) },
    ];
    let r = Record {
        record_type: "StageEnemyInfo".to_owned(),
        name: "\u{6575}\u{60C5}\u{5831}".to_owned(),
        payload: RecordPayload::Fields { fields },
    };
    assert(fields_view(fields@) =~= fields_of_view(info_entry(manager@, flags)));
    r
}

/// A tables document for a stage that has none: the retail root group with
/// nothing in it. Every retail table is optional at runtime.
pub fn fresh_tables_document() -> (r: Record)
    ensures
        record_view(r) == (RecordView {
            record_type: "NameRefGrp"@,
            name: tables_root_name(),
            payload: PayloadView::Group(Seq::empty(), Seq::empty()),
        }),
{
    let fields: Vec<Field> = Vec::new();
    let children: Vec<Record> = Vec::new();
    let r = Record {
        record_type: "NameRefGrp".to_owned(),
        name: "\u{30C7}\u{30FC}\u{30BF}\u{30C6}\u{30FC}\u{30D6}\u{30EB}\u{7FA4}".to_owned(),
        payload: RecordPayload::Group { fields, children },
    };
    proof {
        lemma_records_view(children@);
        assert(fields_view(fields@) =~= Seq::<FieldView>::empty());
        assert(records_view(children@) =~= Seq::<RecordView>::empty());
    }
    r
}

fn new_table_record(manager: &str) -> (r: Record)
    ensures
        record_view(r) == new_table(manager@),
{
    let fields: Vec<Field> = Vec::new();
    let mut children: Vec<Record> = Vec::new();
    let entry = enemy_info_record(manager, SPAWN_FROM_GOOP_FLAG);
    children.push(entry);
    let r = Record {
        record_type: "StageEnemyInfoHeader".to_owned(),
        name: "\u{6575}\u{51FA}\u{73FE}\u{30C6}\u{30FC}\u{30D6}\u{30EB}".to_owned(),
        payload: RecordPayload::Group { fields, children },
    };
    proof {
        lemma_records_view(children@);
        assert(fields_view(fields@) =~= Seq::<FieldView>::empty());
        assert(records_view(children@) =~= seq![new_entry(manager@)]);
    }
    r
}

/// Sets or clears a manager's goop spawn flag in a tables document, creating
/// the enemy table and the entry when they are absent. False when nothing
/// changed.
pub fn apply_spawn_to_tables(tables: &mut Record, manager: &str, enabled: bool) -> (changed: bool)
    ensures
        changed == spawn_applied(record_view(*old(tables)), manager@, enabled) is Some,
        record_view(*final(tables)) == match spawn_applied(record_view(*old(tables)), manager@, enabled) {
            Some(n) => n,
            None => record_view(*old(tables)),
        },
{
    let ghost v = record_view(*tables);
    let entry_search = TableSearch::Entry(manager.to_owned());
    proof {
        lemma_first_path_ok(v, TableTarget::Entry(manager@));
        lemma_first_path_ok(v, TableTarget::Header);
    }
    if let Some(path) = find_record_path(tables, &entry_search) {
        assert(path_ints(path@).skip(0) =~= path_ints(path@));
        let spawning = is_spawning(record_at(tables, &path, 0));
        if spawning == enabled {
            return false;
        }
        edit_at(tables, &path, 0, TableEdit::SetSpawnFlag(enabled));
        return true;
    }
    if !enabled {
        return false;
    }
    match find_record_path(tables, &TableSearch::Header) {
        Some(header_path) => {
            assert(path_ints(header_path@).skip(0) =~= path_ints(header_path@));
            let is_group = matches!(record_at(tables, &header_path, 0).payload, RecordPayload::Group { .. });
            if !is_group {
                return false;
            }
            let entry = enemy_info_record(manager, SPAWN_FROM_GOOP_FLAG);
            edit_at(tables, &header_path, 0, TableEdit::AddChild(entry));
            true
        },
        None => {
            if !matches!(tables.payload, RecordPayload::Group { .. }) {
                return false;
            }
            let root_path: Vec<usize> = Vec::new();
            assert(path_ints(root_path@).skip(0) =~= Seq::<int>::empty());
            let table = new_table_record(manager);
            edit_at(tables, &root_path, 0, TableEdit::AddChild(table));
            true
        },
    }
}


// ---------------------------------------------------------------------------
// What a change leaves behind

/// An entry whose spawn bit can move: a plain field record whose first
/// `flags` field is an `I32`.
pub open spec fn flaggable_entry(v: RecordView) -> bool {
    v.payload is Fields && first_field(fields_of_view(v), "flags"@) matches Some(FieldValueView::I32(_))
}

/// The tables after the call: the changed tables, or the same ones.
pub open spec fn after_spawn(v: RecordView, manager: Seq<char>, enabled: bool) -> RecordView {
    match spawn_applied(v, manager, enabled) {
        Some(n) => n,
        None => v,
    }
}

proof fn minimal_field_index(fs: Seq<FieldView>, name: Seq<char>, i: int) -> (k: int)
    requires
        0 <= i < fs.len(),
        fs[i].name == name,
    ensures
        0 <= k <= i,
        fs[k].name == name,
        forall|j: int| 0 <= j < k ==> fs[j].name != name,
    decreases i,
{
    if exists|j: int| 0 <= j < i && fs[j].name == name {
        let j = choose|j: int| 0 <= j < i && fs[j].name == name;
        minimal_field_index(fs, name, j)
    } else {
        i
    }
}

proof fn lemma_first_field_flagged(fs: Seq<FieldView>, name: Seq<char>, enabled: bool)
    ensures
        first_field(fs.map_values(|f: FieldView| flag_field(f, enabled)), name) == match first_field(
            fs,
            name,
        ) {
            Some(val) => Some(flag_field(FieldView { name, value: val }, enabled).value),
            None => None,
        },
{
    let gs = fs.map_values(|f: FieldView| flag_field(f, enabled));
    assert forall|k: int| 0 <= k < fs.len() implies #[trigger] gs[k].name == fs[k].name by {}
    if exists|i: int| 0 <= i < fs.len() && fs[i].name == name {
        let i0 = choose|i: int| 0 <= i < fs.len() && fs[i].name == name;
        let i = minimal_field_index(fs, name, i0);
        lemma_first_field_at(fs, name, i);
        lemma_first_field_at(gs, name, i);
        assert(fs[i] == FieldView { name, value: fs[i].value });
    } else {
        assert(!exists|i: int| 0 <= i < gs.len() && gs[i].name == name);
    }
}

proof fn lemma_none_in(cs: Seq<RecordView>, i: int, k: int, t: TableTarget)
    requires
        first_path_in(cs, i, t) is None,
        0 <= i <= k < cs.len(),
    ensures
        first_path(cs[k], t) is None,
    decreases k - i,
{
    if i < k {
        lemma_none_in(cs, i + 1, k, t);
    }
}

proof fn lemma_first_path_in_split(cs: Seq<RecordView>, i: int, t: TableTarget)
    requires
        first_path_in(cs, i, t) is Some,
    ensures
        ({
            let p = first_path_in(cs, i, t)->0;
            &&& p.len() > 0
            &&& i <= p[0] < cs.len()
            &&& first_path(cs[p[0]], t) == Some(p.drop_first())
            &&& forall|k: int| i <= k < p[0] ==> (#[trigger] first_path(cs[k], t)) is None
        }),
    decreases cs.len() - i,
{
    if 0 <= i < cs.len() {
        match first_path(cs[i], t) {
            Some(q) => {
                assert((seq![i] + q).drop_first() =~= q);
            },
            None => {
                lemma_first_path_in_split(cs, i + 1, t);
            },
        }
    }
}

proof fn lemma_first_path_in_at(cs: Seq<RecordView>, i: int, j: int, q: Seq<int>, t: TableTarget)
    requires
        0 <= i <= j < cs.len(),
        forall|k: int| i <= k < j ==> (#[trigger] first_path(cs[k], t)) is None,
        first_path(cs[j], t) == Some(q),
    ensures
        first_path_in(cs, i, t) == Some(seq![j] + q),
    decreases j - i,
{
    if i < j {
        assert(first_path(cs[i], t) is None);
        lemma_first_path_in_at(cs, i + 1, j, q, t);
    } else {
        assert(first_path(cs[j], t) == Some(q));
    }
}

proof fn lemma_subtree_replace(v: RecordView, p: Seq<int>, x: RecordView)
    requires
        path_ok(v, p),
    ensures
        subtree(replace_at(v, p, x), p) == x,
        path_ok(replace_at(v, p, x), p),
    decreases p.len(),
{
    if p.len() > 0 {
        match v.payload {
            PayloadView::Group(fs, cs) => {
                lemma_subtree_replace(cs[p[0]], p.drop_first(), x);
            },
            _ => {},
        }
    }
}

proof fn lemma_subtree_concat(v: RecordView, a: Seq<int>, b: Seq<int>)
    requires
        path_ok(v, a),
    ensures
        subtree(v, a + b) == subtree(subtree(v, a), b),
    decreases a.len(),
{
    if a.len() > 0 {
        assert((a + b)[0] == a[0]);
        assert((a + b).drop_first() =~= a.drop_first() + b);
        match v.payload {
            PayloadView::Group(fs, cs) => {
                lemma_subtree_concat(cs[a[0]], a.drop_first(), b);
            },
            _ => {},
        }
    } else {
        assert(a + b =~= b);
    }
}

/// Replacing the first hit by another hit keeps it the first hit.
proof fn lemma_replace_keeps_first(v: RecordView, p: Seq<int>, x: RecordView, t: TableTarget)
    requires
        first_path(v, t) == Some(p),
        target_hit(x, t),
    ensures
        first_path(replace_at(v, p, x), t) == Some(p),
    decreases p.len(),
{
    if p.len() > 0 {
        match v.payload {
            PayloadView::Group(fs, cs) => {
                lemma_first_path_in_split(cs, 0, t);
                let j = p[0];
                let q = p.drop_first();
                lemma_replace_keeps_first(cs[j], q, x, t);
                let cs2 = cs.update(j, replace_at(cs[j], q, x));
                assert forall|k: int| 0 <= k < j implies (#[trigger] first_path(cs2[k], t)) is None by {
                    assert(cs2[k] == cs[k]);
                }
                lemma_first_path_in_at(cs2, 0, j, q, t);
                assert(seq![j] + q =~= p);
            },
            _ => {},
        }
    }
}

/// Appending a child that holds a hit to a group of a tree without hits
/// makes that child's hit the first one.
proof fn lemma_append_first(v: RecordView, hp: Seq<int>, c: RecordView, q: Seq<int>, t: TableTarget)
    requires
        first_path(v, t) is None,
        path_ok(v, hp),
        subtree(v, hp).payload is Group,
        first_path(c, t) == Some(q),
    ensures
        first_path(replace_at(v, hp, with_child(subtree(v, hp), c)), t) == Some(
            hp + seq![subtree(v, hp).payload->Group_1.len() as int] + q,
        ),
    decreases hp.len(),
{
    match v.payload {
        PayloadView::Group(fs, cs) => {
            if hp.len() == 0 {
                let cs2 = cs.push(c);
                assert forall|k: int| 0 <= k < cs.len() implies (#[trigger] first_path(cs2[k], t)) is None by {
                    assert(cs2[k] == cs[k]);
                    lemma_none_in(cs, 0, k, t);
                }
                lemma_first_path_in_at(cs2, 0, cs.len() as int, q, t);
                assert(hp + seq![cs.len() as int] + q =~= seq![cs.len() as int] + q);
            } else {
                let j = hp[0];
                let rest = hp.drop_first();
                lemma_none_in(cs, 0, j, t);
                lemma_append_first(cs[j], rest, c, q, t);
                let h = subtree(cs[j], rest);
                let cs2 = cs.update(j, replace_at(cs[j], rest, with_child(h, c)));
                assert forall|k: int| 0 <= k < j implies (#[trigger] first_path(cs2[k], t)) is None by {
                    assert(cs2[k] == cs[k]);
                    lemma_none_in(cs, 0, k, t);
                }
                let tail = rest + seq![h.payload->Group_1.len() as int] + q;
                lemma_first_path_in_at(cs2, 0, j, tail, t);
                assert(seq![j] + tail =~= hp + seq![h.payload->Group_1.len() as int] + q);
            }
        },
        _ => {},
    }
}

proof fn lemma_name_literals()
    ensures
        "manager_name"@ != "flags"@,
        "StageEnemyInfoHeader"@ != "StageEnemyInfo"@,
{
    reveal_strlit("manager_name");
    reveal_strlit("flags");
    reveal_strlit("StageEnemyInfo");
    reveal_strlit("StageEnemyInfoHeader");
    assert("manager_name"@.len() != "flags"@.len());
    assert("StageEnemyInfoHeader"@.len() != "StageEnemyInfo"@.len());
}

#[verifier::spinoff_prover]
#[verifier::rlimit(40)]
proof fn lemma_new_entry(m: Seq<char>)
    ensures
        first_path(new_entry(m), TableTarget::Entry(m)) == Some(Seq::<int>::empty()),
        spawning_view(new_entry(m)),
        first_path(new_table(m), TableTarget::Entry(m)) == Some(seq![0int]),
        subtree(new_table(m), seq![0int]) == new_entry(m),
        path_ok(new_table(m), seq![0int]),
{
    lemma_name_literals();
    assert(seq![0int].drop_first() =~= Seq::<int>::empty());
    reveal_with_fuel(subtree, 2);
    reveal_with_fuel(path_ok, 2);
    let fs = fields_of_view(new_entry(m));
    lemma_first_field_at(fs, "manager_name"@, 0);
    lemma_first_field_at(fs, "flags"@, 1);
    assert((1i32 & 1i32) != 0i32) by (bit_vector);
    assert(entry_view(new_entry(m), m));
    assert(!entry_view(new_table(m), m));
    lemma_first_path_in_at(seq![new_entry(m)], 0, 0, Seq::<int>::empty(), TableTarget::Entry(m));
    assert(seq![0int] + Seq::<int>::empty() =~= seq![0int]);
    assert(seq![0int].drop_first() =~= Seq::<int>::empty());
}

#[verifier::spinoff_prover]
#[verifier::rlimit(40)]
proof fn lemma_flip_sticks(v: RecordView, manager: Seq<char>, enabled: bool, p: Seq<int>)
    requires
        first_path(v, TableTarget::Entry(manager)) == Some(p),
        flaggable_entry(subtree(v, p)),
        path_ok(v, p),
        target_hit(subtree(v, p), TableTarget::Entry(manager)),
    ensures
        ({
            let x2 = with_spawn_flag(subtree(v, p), enabled);
            let n = replace_at(v, p, x2);
            first_path(n, TableTarget::Entry(manager)) == Some(p) && spawning_view(subtree(n, p)) == enabled
        }),
{
    let x = subtree(v, p);
    let fs = fields_of_view(x);
    let x2 = with_spawn_flag(x, enabled);
    lemma_name_literals();
    lemma_first_field_flagged(fs, "manager_name"@, enabled);
    lemma_first_field_flagged(fs, "flags"@, enabled);
    assert(fields_of_view(x2) == fs.map_values(|f: FieldView| flag_field(f, enabled)));
    assert(entry_view(x2, manager));
    if let Some(FieldValueView::I32(f)) = first_field(fs, "flags"@) {
        assert(((f | 1i32) & 1i32) != 0i32) by (bit_vector);
        assert(((f & !1i32) & 1i32) == 0i32) by (bit_vector);
    }
    assert(spawning_view(x2) == enabled);
    lemma_replace_keeps_first(v, p, x2, TableTarget::Entry(manager));
    lemma_subtree_replace(v, p, x2);
}

proof fn lemma_subtree_last_child(h: RecordView, c: RecordView)
    requires
        h.payload is Group,
    ensures
        subtree(with_child(h, c), seq![h.payload->Group_1.len() as int]) == c,
        path_ok(with_child(h, c), seq![h.payload->Group_1.len() as int]),
{
    let len = h.payload->Group_1.len() as int;
    assert(seq![len].drop_first() =~= Seq::<int>::empty());
    reveal_with_fuel(subtree, 2);
    reveal_with_fuel(path_ok, 2);
}

#[verifier::spinoff_prover]
#[verifier::rlimit(40)]
proof fn lemma_new_entry_sticks(v: RecordView, manager: Seq<char>, hp: Seq<int>)
    requires
        first_path(v, TableTarget::Entry(manager)) is None,
        path_ok(v, hp),
        subtree(v, hp).payload is Group,
    ensures
        ({
            let n = replace_at(v, hp, with_child(subtree(v, hp), new_entry(manager)));
            first_path(n, TableTarget::Entry(manager)) matches Some(p) && spawning_view(subtree(n, p))
        }),
{
    let t = TableTarget::Entry(manager);
    lemma_new_entry(manager);
    let h = subtree(v, hp);
    lemma_append_first(v, hp, new_entry(manager), Seq::empty(), t);
    let n = replace_at(v, hp, with_child(h, new_entry(manager)));
    let len = h.payload->Group_1.len() as int;
    lemma_subtree_replace(v, hp, with_child(h, new_entry(manager)));
    lemma_subtree_concat(n, hp, seq![len]);
    lemma_subtree_last_child(h, new_entry(manager));
    assert(hp + seq![len] + Seq::<int>::empty() =~= hp + seq![len]);
}

#[verifier::spinoff_prover]
#[verifier::rlimit(40)]
proof fn lemma_new_table_sticks(v: RecordView, manager: Seq<char>)
    requires
        first_path(v, TableTarget::Entry(manager)) is None,
        v.payload is Group,
    ensures
        ({
            let n = with_child(v, new_table(manager));
            first_path(n, TableTarget::Entry(manager)) matches Some(p) && spawning_view(subtree(n, p))
        }),
{
    let t = TableTarget::Entry(manager);
    let nt = new_table(manager);
    let e = Seq::<int>::empty();
    lemma_new_entry(manager);
    let n = with_child(v, nt);
    let len = v.payload->Group_1.len() as int;
    assert(subtree(v, e) == v);
    assert(replace_at(v, e, with_child(v, nt)) == n);
    lemma_append_first(v, e, nt, seq![0int], t);
    assert(e + seq![len] + seq![0int] =~= seq![len, 0int]);
    assert(first_path(n, t) == Some(seq![len, 0int]));
    lemma_subtree_last_child(v, nt);
    lemma_subtree_concat(n, seq![len], seq![0int]);
    assert(seq![len] + seq![0int] =~= seq![len, 0int]);
    assert(subtree(n, seq![len, 0int]) == new_entry(manager));
}

/// Whenever the call changes the tables, the manager's first entry
/// afterwards carries exactly the requested bit, so a second call with the
/// same request changes nothing. This holds where the manager's existing
/// entry, if it has one, is a plain field record with an `I32` first `flags`
/// field; another entry's bit cannot move.
pub proof fn spawn_flag_sticks(v: RecordView, manager: Seq<char>, enabled: bool)
    requires
        first_path(v, TableTarget::Entry(manager)) matches Some(p) ==> flaggable_entry(subtree(v, p)),
    ensures
        spawn_applied(v, manager, enabled) is Some ==> (first_path(
            after_spawn(v, manager, enabled),
            TableTarget::Entry(manager),
        ) matches Some(p) && spawning_view(subtree(after_spawn(v, manager, enabled), p)) == enabled),
        spawn_applied(after_spawn(v, manager, enabled), manager, enabled) is None,
{
    let t = TableTarget::Entry(manager);
    lemma_first_path_ok(v, t);
    lemma_first_path_ok(v, TableTarget::Header);
    match first_path(v, t) {
        Some(p) => {
            if spawning_view(subtree(v, p)) != enabled {
                lemma_flip_sticks(v, manager, enabled, p);
            }
        },
        None => {
            if enabled {
                match first_path(v, TableTarget::Header) {
                    Some(hp) => {
                        if subtree(v, hp).payload is Group {
                            lemma_new_entry_sticks(v, manager, hp);
                        }
                    },
                    None => {
                        if v.payload is Group {
                            lemma_new_table_sticks(v, manager);
                        }
                    },
                }
            }
        },
    }
}


// ---------------------------------------------------------------------------
// Flagged managers

/// The manager an entry names when it is a goop-spawning `StageEnemyInfo`
/// entry with a string `manager_name`.
pub open spec fn flagged_manager(v: RecordView) -> Option<Seq<char>> {
    if v.record_type == "StageEnemyInfo"@ && spawning_view(v) {
        match first_field(fields_of_view(v), "manager_name"@) {
            Some(FieldValueView::Str(m)) => Some(m),
            _ => None,
        }
    } else {
        None
    }
}

/// Every manager that an entry anywhere in the tree flags for goop spawning.
pub open spec fn flagged_in(v: RecordView) -> Set<Seq<char>>
    decreases v, 1int,
{
    let own = match flagged_manager(v) {
        Some(m) => set![m],
        None => Set::empty(),
    };
    match v.payload {
        PayloadView::Group(_, cs) => own.union(flagged_in_children(cs, 0)),
        _ => own,
    }
}

pub open spec fn flagged_in_children(cs: Seq<RecordView>, i: int) -> Set<Seq<char>>
    decreases cs, cs.len() - i,
{
    if 0 <= i < cs.len() {
        flagged_in(cs[i]).union(flagged_in_children(cs, i + 1))
    } else {
        Set::empty()
    }
}

pub open spec fn names_of(v: Seq<String>) -> Set<Seq<char>> {
    Set::new(|m: Seq<char>| exists|i: int| 0 <= i < v.len() && v[i]@ == m)
}

pub open spec fn distinct_names(v: Seq<String>) -> bool {
    forall|i: int, j: int| 0 <= i < j < v.len() ==> v[i]@ != v[j]@
}

/// The names in `String`'s order, each once.
pub open spec fn sorted_names(v: Seq<String>) -> bool {
    forall|i: int, j: int| 0 <= i < j < v.len() ==> name_before(#[trigger] v[i]@, #[trigger] v[j]@)
}

fn add_name(out: &mut Vec<String>, name: &String)
    requires
        sorted_names(old(out)@),
    ensures
        sorted_names(final(out)@),
        names_of(final(out)@) == names_of(old(out)@).insert(name@),
{
    let mut i: usize = 0;
    while i < out.len() && name_is_before(out[i].as_str(), name.as_str())
        invariant
            i <= out.len(),
            out@ == old(out)@,
            sorted_names(old(out)@),
            forall|j: int| 0 <= j < i ==> name_before(#[trigger] out@[j]@, name@),
        decreases out.len() - i,
    {
        i += 1;
    }
    if i < out.len() && str_equal(out[i].as_str(), name.as_str()) {
        assert(names_of(out@) =~= names_of(out@).insert(name@));
        return;
    }
    let ghost before = out@;
    proof {
        if i < before.len() {
            lemma_name_before_total(before[i as int]@, name@);
        }
    }
    out.insert(i, name.clone());
    assert(out@ =~= before.insert(i as int, *name));
    assert forall|p: int, q: int| 0 <= p < q < out@.len() implies name_before(
        #[trigger] out@[p]@,
        #[trigger] out@[q]@,
    ) by {
        if q < i {
            assert(name_before(before[p]@, before[q]@));
        } else if q == i {
            assert(name_before(before[p]@, name@));
        } else if p == i {
            if q - 1 > i {
                assert(name_before(before[i as int]@, before[q - 1]@));
                lemma_name_before_transitive(name@, before[i as int]@, before[q - 1]@);
            }
        } else if p < i {
            assert(name_before(before[p]@, before[q - 1]@));
        } else {
            assert(name_before(before[p - 1]@, before[q - 1]@));
        }
    }
    assert(names_of(out@) =~= names_of(before).insert(name@)) by {
        assert forall|m: Seq<char>| names_of(before).insert(name@).contains(m) implies names_of(out@).contains(m) by {
            if m == name@ {
                assert(out@[i as int]@ == m);
            } else {
                let k = choose|k: int| 0 <= k < before.len() && before[k]@ == m;
                if k < i {
                    assert(out@[k]@ == m);
                } else {
                    assert(out@[k + 1]@ == m);
                }
            }
        }
        assert forall|m: Seq<char>| names_of(out@).contains(m) implies names_of(before).insert(name@).contains(m) by {
            let k = choose|k: int| 0 <= k < out@.len() && out@[k]@ == m;
            if k < i {
                assert(before[k]@ == m);
            } else if k > i {
                assert(before[k - 1]@ == m);
            }
        }
    }
}

fn collect_flagged(record: &Record, out: &mut Vec<String>)
    requires
        sorted_names(old(out)@),
    ensures
        sorted_names(final(out)@),
        names_of(final(out)@) == names_of(old(out)@).union(flagged_in(record_view(*record))),
    decreases record, 1int,
{
    let ghost v = record_view(*record);
    let ghost start = names_of(out@);
    let is_type = str_equal(record.record_type.as_str(), "StageEnemyInfo");
    if is_type && is_spawning(record) {
        match first_field_of(record, "manager_name") {
            Some(FieldValue::Str(m)) => {
                add_name(out, m);
            },
            _ => {},
        }
    }
    let ghost own = match flagged_manager(v) {
        Some(m) => set![m],
        None => Set::<Seq<char>>::empty(),
    };
    assert(names_of(out@) == start.union(own));
    match &record.payload {
        RecordPayload::Group { children, .. } => {
            proof {
                lemma_records_view(children@);
            }
            collect_flagged_children(children, 0, out);
            assert(names_of(out@) =~= start.union(flagged_in(v)));
        },
        _ => {
            assert(names_of(out@) =~= start.union(flagged_in(v)));
        },
    }
}

fn collect_flagged_children(children: &Vec<Record>, i: usize, out: &mut Vec<String>)
    requires
        i <= children.len(),
        sorted_names(old(out)@),
    ensures
        sorted_names(final(out)@),
        names_of(final(out)@) == names_of(old(out)@).union(
            flagged_in_children(records_view(children@), i as int),
        ),
    decreases children@, children.len() - i,
{
    proof {
        lemma_records_view(children@);
    }
    if i == children.len() {
        assert(names_of(out@) =~= names_of(out@).union(Set::<Seq<char>>::empty()));
        return;
    }
    let ghost start = names_of(out@);
    collect_flagged(&children[i], out);
    collect_flagged_children(children, i + 1, out);
    assert(names_of(out@) =~= start.union(flagged_in_children(records_view(children@), i as int)));
}

/// The managers that the stage's enemy table flags for goop spawning, each
/// once and in `String`'s order; none without a tables document.
pub fn goop_flagged_managers(document: &StageDocument) -> (managers: Vec<String>)
    ensures
        sorted_names(managers@),
        distinct_names(managers@),
        names_of(managers@) == match document.tables {
            Some(t) => flagged_in(record_view(t)),
            None => Set::<Seq<char>>::empty(),
        },
{
    let mut managers: Vec<String> = Vec::new();
    assert(names_of(managers@) =~= Set::<Seq<char>>::empty());
    match &document.tables {
        Some(tables) => {
            collect_flagged(tables, &mut managers);
            assert(names_of(managers@) =~= flagged_in(record_view(*tables)));
        },
        None => {},
    }
    assert forall|i: int, j: int| 0 <= i < j < managers@.len() implies managers@[i]@ != managers@[j]@ by {
        assert(name_before(managers@[i]@, managers@[j]@));
        lemma_name_before_irreflexive(managers@[i]@);
    }
    managers
}


proof fn lemma_flagged_children_contains(cs: Seq<RecordView>, i: int, j: int, m: Seq<char>)
    requires
        0 <= i <= j < cs.len(),
        flagged_in(cs[j]).contains(m),
    ensures
        flagged_in_children(cs, i).contains(m),
    decreases j - i,
{
    if i < j {
        lemma_flagged_children_contains(cs, i + 1, j, m);
    }
}

proof fn lemma_flagged_subtree(v: RecordView, p: Seq<int>, m: Seq<char>)
    requires
        path_ok(v, p),
        flagged_in(subtree(v, p)).contains(m),
    ensures
        flagged_in(v).contains(m),
    decreases p.len(),
{
    if p.len() > 0 {
        match v.payload {
            PayloadView::Group(fs, cs) => {
                lemma_flagged_subtree(cs[p[0]], p.drop_first(), m);
                lemma_flagged_children_contains(cs, 0, p[0], m);
            },
            _ => {},
        }
    }
}

/// After enabling goop spawning for a manager, the manager is among the
/// flagged managers whenever the tables hold an entry for it; the call fails
/// to create one only where the tables have no group to put it in. This
/// holds where the manager's existing entry, if it has one, is a plain field
/// record with an `I32` first `flags` field.
pub proof fn enabling_flags_the_manager(v: RecordView, manager: Seq<char>)
    requires
        first_path(v, TableTarget::Entry(manager)) matches Some(p) ==> flaggable_entry(subtree(v, p)),
    ensures
        first_path(after_spawn(v, manager, true), TableTarget::Entry(manager)) is Some ==> flagged_in(
            after_spawn(v, manager, true),
        ).contains(manager),
{
    let t = TableTarget::Entry(manager);
    let n = after_spawn(v, manager, true);
    spawn_flag_sticks(v, manager, true);
    lemma_first_path_ok(n, t);
    if let Some(p) = first_path(n, t) {
        let x = subtree(n, p);
        assert(spawning_view(x));
        assert(flagged_manager(x) == Some(manager));
        assert(flagged_in(x).contains(manager));
        lemma_flagged_subtree(n, p, manager);
    }
}

} // verus!
