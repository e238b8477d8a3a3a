//! The record tree of a stage's placement documents (`scene.bin`,
//! `tables.bin`), as the goop spawn rules read and edit it.
use vstd::prelude::*;
use crate::text::{chars_of, str_equal};

verus! {

/// A field's value. Values of the kinds the spawn rules do not read are kept
/// as `Other`.
#[derive(Debug)]
pub enum FieldValue {
    Str(String),
    I32(i32),
    U32(u32),
    Other,
}

#[derive(Debug)]
pub struct Field {
    pub name: String,
    pub value: FieldValue,
}

/// What a record carries: nothing, its fields, an actor's fields, or a
/// group's fields and child records.
#[derive(Debug)]
pub enum RecordPayload {
    Empty,
    Fields { fields: Vec<Field> },
    Actor { fields: Vec<Field> },
    Group { fields: Vec<Field>, children: Vec<Record> },
}

#[derive(Debug)]
pub struct Record {
    pub record_type: String,
    pub name: String,
    pub payload: RecordPayload,
}

/// The fields of a record; none for an empty payload.
pub open spec fn fields_of(r: Record) -> Seq<Field> {
    match r.payload {
        RecordPayload::Empty => Seq::empty(),
        RecordPayload::Fields { fields } => fields@,
        RecordPayload::Actor { fields } => fields@,
        RecordPayload::Group { fields, .. } => fields@,
    }
}

/// The position of the first field named `name`.
pub open spec fn field_position(fields: Seq<Field>, name: Seq<char>) -> Option<int> {
    if exists|i: int| 0 <= i < fields.len() && fields[i].name@ == name {
        Some(
            choose|i: int|
                0 <= i < fields.len() && fields[i].name@ == name && forall|j: int|
                    0 <= j < i ==> fields[j].name@ != name,
        )
    } else {
        None
    }
}

/// The value of a record's first field named `name`.
pub open spec fn field_value(r: Record, name: Seq<char>) -> Option<FieldValue> {
    match field_position(fields_of(r), name) {
        Some(i) => Some(fields_of(r)[i].value),
        None => None,
    }
}

proof fn lemma_field_position(fields: Seq<Field>, name: Seq<char>, i: int)
    requires
        0 <= i < fields.len(),
        fields[i].name@ == name,
        forall|j: int| 0 <= j < i ==> fields[j].name@ != name,
    ensures
        field_position(fields, name) == Some(i),
{
    let k = choose|k: int|
        0 <= k < fields.len() && fields[k].name@ == name && forall|j: int|
            0 <= j < k ==> fields[j].name@ != name;
    if k < i {
        assert(fields[k].name@ != name);
    }
    if i < k {
        assert(fields[i].name@ != name);
    }
}

/// The value of a record's first field named `name`.
pub fn record_field<'a>(record: &'a Record, name: &str) -> (r: Option<&'a FieldValue>)
    ensures
        match r {
            Some(v) => field_value(*record, name@) == Some(*v),
            None => field_value(*record, name@) is None,
        },
{
    let fields = match &record.payload {
        RecordPayload::Empty => return None,
        RecordPayload::Fields { fields } => fields,
        RecordPayload::Actor { fields } => fields,
        RecordPayload::Group { fields, .. } => fields,
    };
    assert(fields@ == fields_of(*record));
    let mut i: usize = 0;
    while i < fields.len()
        invariant
            i <= fields.len(),
            fields@ == fields_of(*record),
            forall|j: int| 0 <= j < i ==> fields@[j].name@ != name@,
        decreases fields.len() - i,
    {
        if str_equal(fields[i].name.as_str(), name) {
            proof {
                lemma_field_position(fields@, name@, i as int);
            }
            return Some(&fields[i].value);
        }
        i += 1;
    }
    None
}

/// Whether a record's first `manager_name` field is the string `manager`.
pub open spec fn names_manager(r: Record, manager: Seq<char>) -> bool {
    match field_value(r, "manager_name"@) {
        Some(FieldValue::Str(s)) => s@ == manager,
        _ => false,
    }
}

/// A `StageEnemyInfo` entry for `manager`.
pub open spec fn is_entry_for(r: Record, manager: Seq<char>) -> bool {
    r.record_type@ == "StageEnemyInfo"@ && names_manager(r, manager)
}

/// Bit 0 of an entry's `flags`: the manager may spawn from goop.
pub open spec fn spawns_from_goop(r: Record) -> bool {
    match field_value(r, "flags"@) {
        Some(FieldValue::I32(f)) => f & 1 != 0,
        _ => false,
    }
}

pub fn entry_for_manager(record: &Record, manager: &str) -> (b: bool)
    ensures
        b == is_entry_for(*record, manager@),
{
    if !str_equal(record.record_type.as_str(), "StageEnemyInfo") {
        return false;
    }
    match record_field(record, "manager_name") {
        Some(FieldValue::Str(name)) => str_equal(name.as_str(), manager),
        _ => false,
    }
}

pub fn entry_spawns_from_goop(record: &Record) -> (b: bool)
    ensures
        b == spawns_from_goop(*record),
{
    match record_field(record, "flags") {
        Some(FieldValue::I32(flags)) => *flags & 1 != 0,
        _ => false,
    }
}

/// What the spawn rules look a record up by.
pub enum RecordQuery {
    /// A record with this object name.
    Named(String),
    /// A goop-spawning `StageEnemyInfo` entry for either of two managers.
    SpawningEntry(String, String),
}

/// A record query with its strings as character sequences.
pub enum QueryView {
    Named(Seq<char>),
    SpawningEntry(Seq<char>, Seq<char>),
}

impl View for RecordQuery {
    type V = QueryView;

    open spec fn view(&self) -> QueryView {
        match self {
            RecordQuery::Named(name) => QueryView::Named(name@),
            RecordQuery::SpawningEntry(a, b) => QueryView::SpawningEntry(a@, b@),
        }
    }
}

pub open spec fn query_matches(r: Record, q: QueryView) -> bool {
    match q {
        QueryView::Named(name) => r.name@ == name,
        QueryView::SpawningEntry(a, b) => (is_entry_for(r, a) || is_entry_for(r, b))
            && spawns_from_goop(r),
    }
}

pub fn record_matches(r: &Record, q: &RecordQuery) -> (b: bool)
    ensures
        b == query_matches(*r, q@),
{
    match q {
        RecordQuery::Named(name) => str_equal(r.name.as_str(), name.as_str()),
        RecordQuery::SpawningEntry(a, b) => (entry_for_manager(r, a.as_str()) || entry_for_manager(
            r,
            b.as_str(),
        )) && entry_spawns_from_goop(r),
    }
}

/// Whether the record or one of its descendants matches.
pub open spec fn tree_has(r: Record, q: QueryView) -> bool
    decreases r, 1int,
{
    query_matches(r, q) || match r.payload {
        RecordPayload::Group { children, .. } => children_have(children@, 0, q),
        _ => false,
    }
}

/// Whether a child from position `i` on, or a descendant of one, matches.
pub open spec fn children_have(children: Seq<Record>, i: int, q: QueryView) -> bool
    decreases children, children.len() - i,
{
    if 0 <= i < children.len() {
        tree_has(children[i], q) || children_have(children, i + 1, q)
    } else {
        false
    }
}

/// Depth-first search for a matching record.
pub fn any_record(record: &Record, q: &RecordQuery) -> (found: bool)
    ensures
        found == tree_has(*record, q@),
    decreases record, 1int,
{
    if record_matches(record, q) {
        return true;
    }
    match &record.payload {
        RecordPayload::Group { children, .. } => any_child(children, 0, q),
        _ => false,
    }
}

fn any_child(children: &Vec<Record>, i: usize, q: &RecordQuery) -> (found: bool)
    requires
        i <= children.len(),
    ensures
        found == children_have(children@, i as int, q@),
    decreases children@, children.len() - i,
{
    if i == children.len() {
        return false;
    }
    if any_record(&children[i], q) {
        return true;
    }
    any_child(children, i + 1, q)
}


// ---------------------------------------------------------------------------
// Records as values

/// A field value with its string as characters.
pub enum FieldValueView {
    Str(Seq<char>),
    I32(i32),
    U32(u32),
    Other,
}

pub struct FieldView {
    pub name: Seq<char>,
    pub value: FieldValueView,
}

pub enum PayloadView {
    Empty,
    Fields(Seq<FieldView>),
    Actor(Seq<FieldView>),
    Group(Seq<FieldView>, Seq<RecordView>),
}

/// A record tree as a mathematical value: strings as characters, lists as
/// sequences.
pub struct RecordView {
    pub record_type: Seq<char>,
    pub name: Seq<char>,
    pub payload: PayloadView,
}

pub open spec fn field_value_view(v: FieldValue) -> FieldValueView {
    match v {
        FieldValue::Str(s) => FieldValueView::Str(s@),
        FieldValue::I32(i) => FieldValueView::I32(i),
        FieldValue::U32(u) => FieldValueView::U32(u),
        FieldValue::Other => FieldValueView::Other,
    }
}

pub open spec fn field_view(f: Field) -> FieldView {
    FieldView { name: f.name@, value: field_value_view(f.value) }
}

pub open spec fn fields_view(fs: Seq<Field>) -> Seq<FieldView> {
    fs.map_values(|f: Field| field_view(f))
}

/// The value of a record tree.
pub open spec fn record_view(r: Record) -> RecordView
    decreases r, 1int,
{
    RecordView {
        record_type: r.record_type@,
        name: r.name@,
        payload: match r.payload {
            RecordPayload::Empty => PayloadView::Empty,
            RecordPayload::Fields { fields } => PayloadView::Fields(fields_view(fields@)),
            RecordPayload::Actor { fields } => PayloadView::Actor(fields_view(fields@)),
            RecordPayload::Group { fields, children } => PayloadView::Group(
                fields_view(fields@),
                views_from(children@, 0),
            ),
        },
    }
}

/// The values of the records from position `i` on.
pub open spec fn views_from(cs: Seq<Record>, i: int) -> Seq<RecordView>
    decreases cs, cs.len() - i,
{
    if 0 <= i < cs.len() {
        seq![record_view(cs[i])] + views_from(cs, i + 1)
    } else {
        Seq::empty()
    }
}

/// The values of a list of records, one by one.
pub open spec fn records_view(cs: Seq<Record>) -> Seq<RecordView> {
    views_from(cs, 0)
}

pub proof fn lemma_views_from(cs: Seq<Record>, i: int)
    requires
        0 <= i <= cs.len(),
    ensures
        views_from(cs, i).len() == cs.len() - i,
        forall|k: int| 0 <= k < cs.len() - i ==> #[trigger] views_from(cs, i)[k] == record_view(cs[i + k]),
    decreases cs.len() - i,
{
    if i < cs.len() {
        lemma_views_from(cs, i + 1);
        assert forall|k: int| 0 <= k < cs.len() - i implies #[trigger] views_from(cs, i)[k] == record_view(
            cs[i + k],
        ) by {
            if k > 0 {
                assert(views_from(cs, i)[k] == views_from(cs, i + 1)[k - 1]);
            }
        }
    }
}

/// The values of a list of records are the records' values in order.
pub proof fn lemma_records_view(cs: Seq<Record>)
    ensures
        records_view(cs).len() == cs.len(),
        forall|k: int| 0 <= k < cs.len() ==> #[trigger] records_view(cs)[k] == record_view(cs[k]),
{
    lemma_views_from(cs, 0);
}


pub fn duplicate_field(f: &Field) -> (r: Field)
    ensures
        field_view(r) == field_view(*f),
{
    let value = match &f.value {
        FieldValue::Str(s) => FieldValue::Str(s.clone()),
        FieldValue::I32(i) => FieldValue::I32(*i),
        FieldValue::U32(u) => FieldValue::U32(*u),
        FieldValue::Other => FieldValue::Other,
    };
    Field { name: f.name.clone(), value }
}

fn duplicate_fields(fields: &Vec<Field>) -> (r: Vec<Field>)
    ensures
        fields_view(r@) == fields_view(fields@),
{
    let mut r: Vec<Field> = Vec::new();
    let mut i: usize = 0;
    while i < fields.len()
        invariant
            i <= fields.len(),
            r@.len() == i,
            forall|k: int| 0 <= k < i ==> #[trigger] field_view(r@[k]) == field_view(fields@[k]),
        decreases fields.len() - i,
    {
        r.push(duplicate_field(&fields[i]));
        i += 1;
    }
    assert(fields_view(r@) =~= fields_view(fields@));
    r
}

/// A copy of a record tree.
pub fn duplicate_record(record: &Record) -> (r: Record)
    ensures
        record_view(r) == record_view(*record),
    decreases record, 1int,
{
    let payload = match &record.payload {
        RecordPayload::Empty => RecordPayload::Empty,
        RecordPayload::Fields { fields } => RecordPayload::Fields { fields: duplicate_fields(fields) },
        RecordPayload::Actor { fields } => RecordPayload::Actor { fields: duplicate_fields(fields) },
        RecordPayload::Group { fields, children } => {
            proof {
                lemma_records_view(children@);
            }
            let copies = duplicate_children(children, 0);
            proof {
                lemma_records_view(copies@);
                assert(records_view(copies@) =~= records_view(children@));
            }
            RecordPayload::Group { fields: duplicate_fields(fields), children: copies }
        },
    };
    Record { record_type: record.record_type.clone(), name: record.name.clone(), payload }
}

fn duplicate_children(children: &Vec<Record>, i: usize) -> (r: Vec<Record>)
    requires
        i <= children.len(),
    ensures
        r@.len() == children@.len() - i,
        forall|k: int| 0 <= k < r@.len() ==> #[trigger] record_view(r@[k]) == record_view(children@[i + k]),
    decreases children@, children.len() - i,
{
    if i == children.len() {
        return Vec::new();
    }
    let first = duplicate_record(&children[i]);
    let mut rest = duplicate_children(children, i + 1);
    let ghost rest_seq = rest@;
    let mut r: Vec<Record> = Vec::new();
    r.push(first);
    r.append(&mut rest);
    assert forall|k: int| 0 <= k < r@.len() implies #[trigger] record_view(r@[k]) == record_view(children@[i + k]) by {
        if k > 0 {
            assert(r@[k] == rest_seq[k - 1]);
        }
    }
    r
}

} // verus!
