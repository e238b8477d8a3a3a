//! Binding a placed actor to a goop layer's enemy pool: the actor's own
//! parameters and the dependency records it carries move to the layer pool's
//! manager and character.
use vstd::prelude::*;
use crate::editor::{SceneObject, param_position, params_wf, raw_param};
use crate::goop_spawn::{
    pool_base, pool_base_name, pool_layer, rebind_target, rebind_target_name,
    rebinding_targets_the_layer_pool,
};
use crate::jdrama::{
    duplicate_field, duplicate_record, field_view, fields_view, record_view, Field, FieldValue,
    FieldValueView, FieldView, PayloadView, Record, RecordPayload, RecordView,
};
use crate::text::{name_before, str_equal};

verus! {

/// The parameter an actor names its enemy manager by.
pub open spec fn manager_key() -> Seq<char> {
    "manager_name"@
}

/// The parameter an actor and a manager record name their character by.
pub open spec fn character_key() -> Seq<char> {
    "character_name"@
}

/// A field after rebinding: a `character_name` string goes to its base name
/// with the layer's suffix (or to its base name for no layer); every other
/// field stays.
pub open spec fn rebound_field(f: FieldView, layer: Option<usize>) -> FieldView {
    if f.name == character_key() {
        match f.value {
            FieldValueView::Str(v) => FieldView { name: f.name, value: FieldValueView::Str(rebind_target(v, layer)) },
            _ => f,
        }
    } else {
        f
    }
}

pub open spec fn rebound_fields(fs: Seq<FieldView>, layer: Option<usize>) -> Seq<FieldView> {
    fs.map_values(|f: FieldView| rebound_field(f, layer))
}

/// A dependency record after rebinding from `current` to `target`: a record
/// named after the current manager takes the target's name, and the
/// `character_name` fields of a field or actor payload follow the layer; any
/// other record stays as it is.
pub open spec fn rebound_dependency(
    d: RecordView,
    current: Seq<char>,
    target: Seq<char>,
    layer: Option<usize>,
) -> RecordView {
    if d.name != current {
        d
    } else {
        RecordView {
            record_type: d.record_type,
            name: target,
            payload: match d.payload {
                PayloadView::Fields(fs) => PayloadView::Fields(rebound_fields(fs, layer)),
                PayloadView::Actor(fs) => PayloadView::Actor(rebound_fields(fs, layer)),
                other => other,
            },
        }
    }
}

/// The raw parameters as characters.
pub open spec fn params_view(ps: Seq<(String, String)>) -> Seq<(Seq<char>, Seq<char>)> {
    ps.map_values(|p: (String, String)| (p.0@, p.1@))
}

/// The actor after rebinding: its first `manager_name` names `target`, its
/// first `character_name` (if any) names its base character; every other
/// parameter and the rest of the object stay.
pub open spec fn rebound_object(o: SceneObject, r: SceneObject, target: Seq<char>) -> bool {
    let ps = o.raw_params@;
    &&& r.factory_name == o.factory_name
    &&& r.class_name == o.class_name
    &&& r.pool_only == o.pool_only
    &&& r.raw_params@.len() == ps.len()
    &&& param_position(ps, manager_key()) matches Some(m) && forall|i: int|
        0 <= i < ps.len() ==> #[trigger] params_view(r.raw_params@)[i] == rebound_param(
            ps,
            i,
            m,
            param_position(ps, character_key()),
            target,
        )
}

/// The position of an object's first raw parameter named `key`.
fn param_index(o: &SceneObject, key: &str) -> (r: Option<usize>)
    ensures
        match r {
            Some(i) => param_position(o.raw_params@, key@) == Some(i as int) && i < o.raw_params@.len()
                && o.raw_params@[i as int].0@ == key@,
            None => param_position(o.raw_params@, key@) is None,
        },
{
    let mut i: usize = 0;
    while i < o.raw_params.len()
        invariant
            i <= o.raw_params.len(),
            forall|j: int| 0 <= j < i ==> o.raw_params@[j].0@ != key@,
        decreases o.raw_params.len() - i,
    {
        if str_equal(o.raw_params[i].0.as_str(), key) {
            proof {
                let k = choose|k: int|
                    0 <= k < o.raw_params@.len() && o.raw_params@[k].0@ == key@ && forall|j: int|
                        0 <= j < k ==> o.raw_params@[j].0@ != key@;
                if k < i {
                    assert(o.raw_params@[k].0@ != key@);
                }
                if i < k {
                    assert(o.raw_params@[i as int].0@ != key@);
                }
            }
            return Some(i);
        }
        i += 1;
    }
    None
}

fn rebind_fields(fields: &Vec<Field>, layer: Option<usize>) -> (r: Vec<Field>)
    ensures
        fields_view(r@) == rebound_fields(fields_view(fields@), layer),
{
    let mut r: Vec<Field> = Vec::new();
    let mut i: usize = 0;
    while i < fields.len()
        invariant
            i <= fields.len(),
            r@.len() == i,
            forall|k: int|
                0 <= k < i ==> #[trigger] field_view(r@[k]) == rebound_field(field_view(fields@[k]), layer),
        decreases fields.len() - i,
    {
        let f = &fields[i];
        let is_character = str_equal(f.name.as_str(), "character_name");
        let field = match &f.value {
            FieldValue::Str(v) if is_character => {
                Field { name: f.name.clone(), value: FieldValue::Str(rebind_target_name(v.as_str(), layer)) }
            },
            _ => duplicate_field(f),
        };
        r.push(field);
        i += 1;
    }
    assert(fields_view(r@) =~= rebound_fields(fields_view(fields@), layer));
    r
}

fn rebind_dependency(d: &Record, current: &str, target: &str, layer: Option<usize>) -> (r: Record)
    ensures
        record_view(r) == rebound_dependency(record_view(*d), current@, target@, layer),
{
    if !str_equal(d.name.as_str(), current) {
        return duplicate_record(d);
    }
    let payload = match &d.payload {
        RecordPayload::Fields { fields } => RecordPayload::Fields { fields: rebind_fields(fields, layer) },
        RecordPayload::Actor { fields } => RecordPayload::Actor { fields: rebind_fields(fields, layer) },
        _ => {
            let copy = duplicate_record(d);
            copy.payload
        },
    };
    Record { record_type: d.record_type.clone(), name: target.to_owned(), payload }
}

/// One parameter after rebinding, at position `i`: the manager at `m` names
/// `target`, the character at `c` its base name, and every other stays.
pub open spec fn rebound_param(
    ps: Seq<(String, String)>,
    i: int,
    m: int,
    c: Option<int>,
    target: Seq<char>,
) -> (Seq<char>, Seq<char>) {
    if i == m {
        (manager_key(), target)
    } else if c == Some(i) {
        (character_key(), pool_base(ps[i].1@))
    } else {
        (ps[i].0@, ps[i].1@)
    }
}

fn rebind_params(ps: &Vec<(String, String)>, m: usize, c: Option<usize>, target: &String) -> (r: Vec<
    (String, String),
>)
    requires
        m < ps@.len(),
        ps@[m as int].0@ == manager_key(),
        c matches Some(k) ==> k < ps@.len() && ps@[k as int].0@ == character_key(),
    ensures
        r@.len() == ps@.len(),
        forall|i: int| 0 <= i < ps@.len() ==> (#[trigger] r@[i]).0@ == ps@[i].0@,
        forall|i: int|
            0 <= i < ps@.len() ==> #[trigger] params_view(r@)[i] == rebound_param(
                ps@,
                i,
                m as int,
                match c {
                    Some(k) => Some(k as int),
                    None => None,
                },
                target@,
            ),
{
    let ghost cc: Option<int> = match c {
        Some(k) => Some(k as int),
        None => None,
    };
    let mut params: Vec<(String, String)> = Vec::new();
    let mut i: usize = 0;
    while i < ps.len()
        invariant
            i <= ps@.len(),
            params@.len() == i,
            m < ps@.len(),
            ps@[m as int].0@ == manager_key(),
            c matches Some(k) ==> k < ps@.len() && ps@[k as int].0@ == character_key(),
            cc == match c {
                Some(k) => Some(k as int),
                None => None::<int>,
            },
            forall|k: int| 0 <= k < i ==> (#[trigger] params@[k]).0@ == ps@[k].0@,
            forall|k: int|
                0 <= k < i ==> #[trigger] params_view(params@)[k] == rebound_param(ps@, k, m as int, cc, target@),
        decreases ps@.len() - i,
    {
        let (key, value) = &ps[i];
        let entry = if i == m {
            (key.clone(), target.clone())
        } else if c == Some(i) {
            (key.clone(), pool_base_name(value.as_str()))
        } else {
            (key.clone(), value.clone())
        };
        let ghost before = params@;
        params.push(entry);
        proof {
            assert(params_view(params@) =~= params_view(before).push((entry.0@, entry.1@)));
        }
        i += 1;
    }
    params
}

fn rebind_dependencies(records: &Vec<Record>, current: &String, target: &String, layer: Option<usize>) -> (r: Vec<Record>)
    ensures
        r@.len() == records@.len(),
        forall|j: int|
            0 <= j < r@.len() ==> #[trigger] record_view(r@[j]) == rebound_dependency(
                record_view(records@[j]),
                current@,
                target@,
                layer,
            ),
{
    let mut deps: Vec<Record> = Vec::new();
    let mut k: usize = 0;
    while k < records.len()
        invariant
            k <= records.len(),
            deps@.len() == k,
            forall|j: int|
                0 <= j < k ==> #[trigger] record_view(deps@[j]) == rebound_dependency(
                    record_view(records@[j]),
                    current@,
                    target@,
                    layer,
                ),
        decreases records.len() - k,
    {
        deps.push(rebind_dependency(&records[k], current.as_str(), target.as_str(), layer));
        k += 1;
    }
    deps
}

proof fn lemma_same_keys_wf(o: SceneObject, r: SceneObject)
    requires
        params_wf(o),
        r.raw_params@.len() == o.raw_params@.len(),
        forall|i: int| 0 <= i < o.raw_params@.len() ==> (#[trigger] r.raw_params@[i]).0@ == o.raw_params@[i].0@,
    ensures
        params_wf(r),
{
    assert forall|i: int, j: int| 0 <= i < j < r.raw_params@.len() implies name_before(
        #[trigger] r.raw_params@[i].0@,
        #[trigger] r.raw_params@[j].0@,
    ) by {
        assert(r.raw_params@[i].0@ == o.raw_params@[i].0@);
        assert(r.raw_params@[j].0@ == o.raw_params@[j].0@);
        assert(name_before(o.raw_params@[i].0@, o.raw_params@[j].0@));
    }
}

/// A rebound actor and its rebound dependency records.
#[derive(Debug)]
pub struct ReboundActor {
    pub object: SceneObject,
    pub dependencies: Vec<Record>,
}

/// What rebinding gives: `None` when the actor has no manager or already
/// uses the target one; otherwise the rebound actor and its dependency
/// records, one for one.
pub open spec fn rebinding(
    object: SceneObject,
    dependencies: Seq<Record>,
    layer: Option<usize>,
    r: Option<ReboundActor>,
) -> bool {
    match raw_param(object, manager_key()) {
        None => r is None,
        Some(current) => {
            let target = rebind_target(current, layer);
            if target == current {
                r is None
            } else {
                &&& r is Some
                &&& rebound_object(object, r->0.object, target)
                &&& r->0.dependencies@.len() == dependencies.len()
                &&& forall|k: int|
                    0 <= k < dependencies.len() ==> #[trigger] record_view(r->0.dependencies@[k]) == rebound_dependency(
                        record_view(dependencies[k]),
                        current,
                        target,
                        layer,
                    )
            }
        },
    }
}

/// Rebinds a placed actor to goop layer `layer`'s pool of its base manager,
/// or back to the base manager for no layer. The actor's `manager_name` goes
/// to the target manager and its `character_name` to its base character
/// (export keeps the actor's own registration); each dependency record named
/// after the current manager is renamed to the target and its
/// `character_name` fields follow the layer. `None` when the actor has no
/// manager or already uses the target one.
pub fn rebound_actor(object: &SceneObject, dependencies: &Vec<Record>, layer: Option<usize>) -> (r: Option<ReboundActor>)
    requires
        params_wf(*object),
    ensures
        rebinding(*object, dependencies@, layer, r),
        r matches Some(moved) ==> params_wf(moved.object),
{
    let m = match param_index(object, "manager_name") {
        Some(m) => m,
        None => return None,
    };
    let current = object.raw_params[m].1.clone();
    let target = rebind_target_name(current.as_str(), layer);
    if str_equal(target.as_str(), current.as_str()) {
        return None;
    }
    let c = param_index(object, "character_name");
    let params = rebind_params(&object.raw_params, m, c, &target);
    let class_name = match &object.class_name {
        Some(n) => Some(n.clone()),
        None => None,
    };
    let moved = SceneObject {
        factory_name: object.factory_name.clone(),
        class_name,
        raw_params: params,
        pool_only: object.pool_only,
    };
    let deps = rebind_dependencies(dependencies, &current, &target, layer);
    proof {
        lemma_same_keys_wf(*object, moved);
    }
    Some(ReboundActor { object: moved, dependencies: deps })
}

proof fn lemma_param_position_at(ps: Seq<(String, String)>, key: Seq<char>, i: int)
    requires
        0 <= i < ps.len(),
        ps[i].0@ == key,
        forall|j: int| 0 <= j < i ==> ps[j].0@ != key,
    ensures
        param_position(ps, key) == Some(i),
{
    let k = choose|k: int| 0 <= k < ps.len() && ps[k].0@ == key && forall|j: int| 0 <= j < k ==> ps[j].0@ != key;
    if k < i {
        assert(ps[k].0@ != key);
    }
    if i < k {
        assert(ps[i].0@ != key);
    }
}

proof fn lemma_param_first(ps: Seq<(String, String)>, key: Seq<char>, i: int)
    requires
        0 <= i < ps.len(),
        ps[i].0@ == key,
    ensures
        exists|k: int|
            0 <= k < ps.len() && ps[k].0@ == key && (forall|j: int| 0 <= j < k ==> ps[j].0@ != key)
                && param_position(ps, key) == Some(k),
    decreases i,
{
    if exists|j: int| 0 <= j < i && ps[j].0@ == key {
        let j = choose|j: int| 0 <= j < i && ps[j].0@ == key;
        lemma_param_first(ps, key, j);
    } else {
        lemma_param_position_at(ps, key, i);
    }
}

#[verifier::spinoff_prover]
proof fn lemma_same_keys_same_position(a: Seq<(String, String)>, b: Seq<(String, String)>, key: Seq<char>)
    requires
        a.len() == b.len(),
        forall|i: int| 0 <= i < a.len() ==> (#[trigger] a[i]).0@ == b[i].0@,
    ensures
        param_position(a, key) == param_position(b, key),
{
    if exists|i: int| 0 <= i < a.len() && a[i].0@ == key {
        let i = choose|i: int| 0 <= i < a.len() && a[i].0@ == key;
        lemma_param_first(a, key, i);
        let k = choose|k: int|
            0 <= k < a.len() && a[k].0@ == key && (forall|j: int| 0 <= j < k ==> a[j].0@ != key)
                && param_position(a, key) == Some(k);
        assert forall|j: int| 0 <= j < k implies b[j].0@ != key by {
            assert(a[j].0@ != key);
        }
        assert(b[k].0@ == key);
        lemma_param_position_at(b, key, k);
    } else {
        assert forall|i: int| 0 <= i < b.len() implies b[i].0@ != key by {
            assert(a[i].0@ == b[i].0@);
        }
    }
}

/// An actor bound to a goop layer reads that layer back from its manager:
/// its manager name is the target pool's, which names the layer.
#[verifier::spinoff_prover]
proof fn lemma_rebound_manager(o: SceneObject, ro: SceneObject, target: Seq<char>)
    requires
        rebound_object(o, ro, target),
    ensures
        raw_param(ro, manager_key()) == Some(target),
{
    let ps = o.raw_params@;
    let rs = ro.raw_params@;
    let m = param_position(ps, manager_key())->0;
    let c = param_position(ps, character_key());
    let i0 = choose|i: int| 0 <= i < ps.len() && ps[i].0@ == manager_key();
    lemma_param_first(ps, manager_key(), i0);
    assert forall|i: int| 0 <= i < ps.len() implies (#[trigger] ps[i]).0@ == rs[i].0@ by {
        assert(params_view(rs)[i] == rebound_param(ps, i, m, c, target));
        if i != m && c == Some(i) {
            let i1 = choose|j: int| 0 <= j < ps.len() && ps[j].0@ == character_key();
            lemma_param_first(ps, character_key(), i1);
        }
    }
    lemma_same_keys_same_position(ps, rs, manager_key());
    assert(params_view(rs)[m] == rebound_param(ps, m, m, c, target));
}

/// An actor bound to a goop layer reads that layer back from its manager:
/// its manager name is the target pool's, which names the layer.
pub proof fn a_rebound_actor_reads_its_layer(
    object: SceneObject,
    dependencies: Seq<Record>,
    layer: usize,
    r: ReboundActor,
)
    requires
        layer < 100,
        rebinding(object, dependencies, Some(layer), Some(r)),
    ensures
        raw_param(object, manager_key()) matches Some(current) && raw_param(r.object, manager_key())
            == Some(rebind_target(current, Some(layer))),
        raw_param(r.object, manager_key()) matches Some(name) && pool_layer(name) == Some(layer as nat),
{
    let current = raw_param(object, manager_key())->0;
    lemma_rebound_manager(object, r.object, rebind_target(current, Some(layer)));
    rebinding_targets_the_layer_pool(current, layer);
}

} // verus!
