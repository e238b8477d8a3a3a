//! Which enemies spawn from goop: the enemy table's spawn flags, per-layer
//! enemy pools and the stage-wide stain on base-pool models.
use std::collections::BTreeMap;
use vstd::prelude::*;
use crate::editor::{
    GoopLayerView, ResourceEdit, SceneObject, params_wf, SmsEditorApp, StageDocument, authoring_view, raw_param, raw_param_of,
};
use crate::jdrama::{any_record, tree_has, QueryView, Record, RecordQuery};
use crate::text::{
    decode_utf8_lossy, utf8_lossy,
    all_ascii_digits, char_is_ascii_digit, chars_of, digits_value, is_ascii_digit, occurs_at,
    replace_char, replace_char_vec, rfind_pattern, str_equal, string_of, sub_vec, two_digit_string,
    two_digits, has_suffix, ends_with,
};

verus! {

broadcast use vstd::std_specs::btree::group_btree_axioms;

/// The suffix of the hidden pool that spawns from goop when placed actors
/// already use a manager.
pub open spec fn goop_pool_suffix() -> Seq<char> {
    "_gp"@
}

/// The name after the last `::` of a factory name, or the whole name.
pub open spec fn semantic_name(factory: Seq<char>) -> Seq<char> {
    if exists|i: int| occurs_at(factory, seq![':', ':'], i) {
        let i = choose|i: int|
            occurs_at(factory, seq![':', ':'], i) && forall|j: int|
                i < j ==> !occurs_at(factory, seq![':', ':'], j);
        factory.subrange(i + 2, factory.len() as int)
    } else {
        factory
    }
}

/// A factory name without its namespace path.
pub fn semantic_factory_name(factory: &str) -> (name: String)
    ensures
        name@ == semantic_name(factory@),
{
    let chars = chars_of(factory);
    let separator = vec![':', ':'];
    proof {
        assert(separator@ =~= seq![':', ':']);
    }
    match rfind_pattern(&chars, &separator) {
        Some(i) => {
            proof {
                let k = choose|k: int|
                    occurs_at(factory@, seq![':', ':'], k) && forall|j: int|
                        k < j ==> !occurs_at(factory@, seq![':', ':'], j);
                if k < i {
                    assert(!occurs_at(factory@, seq![':', ':'], i as int));
                }
                if i < k {
                    assert(!occurs_at(factory@, seq![':', ':'], k));
                }
            }
            assert(i + 2 <= chars.len());
            string_of(&sub_vec(&chars, i + 2, chars.len()))
        },
        None => string_of(&chars),
    }
}

/// Why an enemy cannot be offered for goop spawning yet.
pub open spec fn boss_manta_reason() -> &'static str {
    "BossManta currently soft-crashes when its goop pool initializes and does not move after spawning."
}

/// The reason an actor or manager cannot spawn from goop: only BossManta,
/// whose goop pool currently crashes.
pub fn goop_enemy_unavailable_reason(
    actor_factory: Option<&str>,
    manager_factory: Option<&str>,
) -> (reason: Option<&'static str>)
    ensures
        reason is Some <==> (actor_factory matches Some(a) && a@ == "BossManta"@)
            || (manager_factory matches Some(m) && m@ == "BossMantaManager"@),
        reason is Some ==> reason == Some(boss_manta_reason()),
{
    let actor = match actor_factory {
        Some(a) => str_equal(a, "BossManta"),
        None => false,
    };
    let manager = match manager_factory {
        Some(m) => str_equal(m, "BossMantaManager"),
        None => false,
    };
    if actor || manager {
        Some(
            "BossManta currently soft-crashes when its goop pool initializes and does not move after spawning.",
        )
    } else {
        None
    }
}

/// A per-layer pool folder: a name ending in `_l` and two digits, with
/// something before them ("hamukuri_l00"). Those four characters are ASCII,
/// so this is the check on the name's last four bytes.
pub open spec fn layer_pool_folder(s: Seq<char>) -> bool {
    let n = s.len() as int;
    n > 4 && s[n - 4] == '_' && s[n - 3] == 'l' && is_ascii_digit(s[n - 2]) && is_ascii_digit(
        s[n - 1],
    )
}

/// The first `/`-separated segment of a path.
pub open spec fn first_segment(s: Seq<char>) -> Seq<char> {
    if exists|i: int| 0 <= i < s.len() && s[i] == '/' {
        s.take(
            choose|i: int|
                0 <= i < s.len() && s[i] == '/' && forall|j: int| 0 <= j < i ==> s[j] != '/',
        )
    } else {
        s
    }
}

/// `s` without any leading `c`.
pub open spec fn trim_front(s: Seq<char>, c: char) -> Seq<char>
    decreases s.len(),
{
    if s.len() > 0 && s[0] == c {
        trim_front(s.drop_first(), c)
    } else {
        s
    }
}

/// `s` without any trailing `c`.
pub open spec fn trim_back(s: Seq<char>, c: char) -> Seq<char>
    decreases s.len(),
{
    if s.len() > 0 && s.last() == c {
        trim_back(s.drop_last(), c)
    } else {
        s
    }
}

/// `str::trim_matches` with one character.
pub open spec fn trim_char(s: Seq<char>, c: char) -> Seq<char> {
    trim_back(trim_front(s, c), c)
}


/// Strips every leading and trailing `c`.
pub fn trim_matches_char(v: &Vec<char>, c: char) -> (r: Vec<char>)
    ensures
        r@ == trim_char(v@, c),
{
    let mut i: usize = 0;
    assert(v@.subrange(0, v.len() as int) =~= v@);
    while i < v.len() && v[i] == c
        invariant
            i <= v.len(),
            trim_front(v@, c) == trim_front(v@.subrange(i as int, v.len() as int), c),
        decreases v.len() - i,
    {
        assert(v@.subrange(i as int, v.len() as int).drop_first() =~= v@.subrange(
            i + 1,
            v.len() as int,
        ));
        i += 1;
    }
    assert(trim_front(v@, c) == v@.subrange(i as int, v.len() as int));
    let mut j: usize = v.len();
    assert(trim_char(v@, c) == trim_back(v@.subrange(i as int, j as int), c));
    while j > i && v[j - 1] == c
        invariant
            i <= j <= v.len(),
            trim_char(v@, c) == trim_back(v@.subrange(i as int, j as int), c),
        decreases j,
    {
        assert(v@.subrange(i as int, j as int).drop_last() =~= v@.subrange(i as int, j - 1));
        j -= 1;
    }
    sub_vec(v, i, j)
}

/// The first `/`-separated segment of a path.
pub fn first_path_segment(v: &Vec<char>) -> (r: Vec<char>)
    ensures
        r@ == first_segment(v@),
{
    let mut i: usize = 0;
    while i < v.len()
        invariant
            i <= v.len(),
            forall|j: int| 0 <= j < i ==> v@[j] != '/',
        decreases v.len() - i,
    {
        if v[i] == '/' {
            proof {
                let k = choose|k: int|
                    0 <= k < v@.len() && v@[k] == '/' && forall|j: int| 0 <= j < k ==> v@[j] != '/';
                if k < i {
                    assert(v@[k] != '/');
                }
                if i < k {
                    assert(v@[i as int] != '/');
                }
            }
            return sub_vec(v, 0, i);
        }
        i += 1;
    }
    proof {
        assert(v@.subrange(0, v.len() as int) =~= v@);
    }
    sub_vec(v, 0, v.len())
}

pub fn is_pool_folder_chars(s: &Vec<char>) -> (b: bool)
    ensures
        b == layer_pool_folder(s@),
{
    let n = s.len();
    n > 4 && s[n - 4] == '_' && s[n - 3] == 'l' && char_is_ascii_digit(s[n - 2])
        && char_is_ascii_digit(s[n - 1])
}

/// The goop layer a pool's manager name routes to: two digits after its
/// last `_L`.
pub open spec fn pool_layer(name: Seq<char>) -> Option<nat> {
    if exists|i: int| occurs_at(name, seq!['_', 'L'], i) {
        let i = choose|i: int|
            occurs_at(name, seq!['_', 'L'], i) && forall|j: int|
                i < j ==> !occurs_at(name, seq!['_', 'L'], j);
        let rest = name.subrange(i + 2, name.len() as int);
        if rest.len() == 2 && all_ascii_digits(rest) {
            Some(digits_value(rest))
        } else {
            None
        }
    } else {
        None
    }
}

/// `_L` and the layer index in two digits: the suffix of a per-layer pool.
pub open spec fn pool_suffix(layer: nat) -> Seq<char> {
    seq!['_', 'L'] + two_digits(layer)
}

impl SmsEditorApp {
    /// Whether a path segment names a per-layer pool folder. Stage-wide stain
    /// actions skip those folders: each pool's look belongs to its layer.
    pub fn is_layer_pool_folder(segment: &str) -> (b: bool)
        ensures
            b == layer_pool_folder(segment@),
    {
        is_pool_folder_chars(&chars_of(segment))
    }

    /// Whether a resource path lies outside every per-layer pool folder.
    pub fn outside_layer_pool_folders(path: &str) -> (b: bool)
        ensures
            b == !layer_pool_folder(first_segment(path@)),
    {
        let segment = first_path_segment(&chars_of(path));
        !is_pool_folder_chars(&segment)
    }

    /// Whether a raw archive path lies outside every per-layer pool folder,
    /// after decoding it, turning backslashes into slashes and trimming
    /// slashes at both ends.
    pub fn edit_outside_layer_pool_folders(raw_resource_path: &[u8]) -> (b: bool)
        ensures
            b == !layer_pool_folder(
                first_segment(trim_char(replace_char(utf8_lossy(raw_resource_path@), '\\', '/'), '/')),
            ),
    {
        let decoded = decode_utf8_lossy(raw_resource_path);
        let path = replace_char_vec(&chars_of(decoded.as_str()), '\\', '/');
        let trimmed = trim_matches_char(&path, '/');
        let segment = first_path_segment(&trimmed);
        !is_pool_folder_chars(&segment)
    }

    /// The suffix that marks a per-layer clone of a manager bundle.
    pub fn layer_pool_suffix(layer_index: usize) -> (suffix: String)
        ensures
            suffix@ == pool_suffix(layer_index as nat),
    {
        let mut v = vec!['_', 'L'];
        let mut digits = two_digit_string(layer_index as u64);
        v.append(&mut digits);
        proof {
            assert(v@ =~= pool_suffix(layer_index as nat));
        }
        string_of(&v)
    }

    /// The goop layer a placed actor samples, read from its manager name.
    pub fn selected_actor_goop_layer(object: &SceneObject) -> (layer: Option<usize>)
        requires
            params_wf(*object),
        ensures
            layer == match raw_param(*object, "manager_name"@) {
                Some(name) => match pool_layer(name) {
                    Some(l) => Some(l as usize),
                    None => None,
                },
                None => None,
            },
    {
        let name = match raw_param_of(object, "manager_name") {
            Some(name) => chars_of(name.as_str()),
            None => return None,
        };
        let marker = vec!['_', 'L'];
        proof {
            assert(marker@ =~= seq!['_', 'L']);
        }
        let i = match rfind_pattern(&name, &marker) {
            Some(i) => i,
            None => return None,
        };
        proof {
            let k = choose|k: int|
                occurs_at(name@, seq!['_', 'L'], k) && forall|j: int|
                    k < j ==> !occurs_at(name@, seq!['_', 'L'], j);
            if k < i {
                assert(!occurs_at(name@, seq!['_', 'L'], i as int));
            }
            if i < k {
                assert(!occurs_at(name@, seq!['_', 'L'], k));
            }
        }
        assert(i + 2 <= name.len());
        let rest = sub_vec(&name, i + 2, name.len());
        if rest.len() != 2 || !char_is_ascii_digit(rest[0]) || !char_is_ascii_digit(rest[1]) {
            proof {
                if rest.len() == 2 && all_ascii_digits(rest@) {
                    assert(is_ascii_digit(rest@[0]));
                    assert(is_ascii_digit(rest@[1]));
                }
            }
            return None;
        }
        let d0 = rest[0] as u32 - 48;
        let d1 = rest[1] as u32 - 48;
        proof {
            assert(all_ascii_digits(rest@));
            assert(rest@.drop_last().drop_last() =~= Seq::<char>::empty());
            assert(rest@.drop_last().last() == rest@[0]);
            assert(digits_value(rest@.drop_last()) == d0) by {
                reveal_with_fuel(digits_value, 2);
            }
            assert(digits_value(rest@) == d0 * 10 + d1);
        }
        Some((d0 * 10 + d1) as usize)
    }
}

/// A manager or character name without its per-layer pool suffix: the part
/// before its last `_L` when two ASCII digits follow it, else the name.
pub open spec fn pool_base(name: Seq<char>) -> Seq<char> {
    if exists|i: int| occurs_at(name, seq!['_', 'L'], i) {
        let i = choose|i: int|
            occurs_at(name, seq!['_', 'L'], i) && forall|j: int|
                i < j ==> !occurs_at(name, seq!['_', 'L'], j);
        let rest = name.subrange(i + 2, name.len() as int);
        if rest.len() == 2 && all_ascii_digits(rest) {
            name.take(i)
        } else {
            name
        }
    } else {
        name
    }
}

/// A name without its per-layer pool suffix.
pub fn pool_base_name(name: &str) -> (base: String)
    ensures
        base@ == pool_base(name@),
{
    let chars = chars_of(name);
    let marker = vec!['_', 'L'];
    proof {
        assert(marker@ =~= seq!['_', 'L']);
    }
    let i = match rfind_pattern(&chars, &marker) {
        Some(i) => i,
        None => return string_of(&chars),
    };
    proof {
        let k = choose|k: int|
            occurs_at(name@, seq!['_', 'L'], k) && forall|j: int|
                k < j ==> !occurs_at(name@, seq!['_', 'L'], j);
        if k < i {
            assert(!occurs_at(name@, seq!['_', 'L'], i as int));
        }
        if i < k {
            assert(!occurs_at(name@, seq!['_', 'L'], k));
        }
    }
    assert(i + 2 <= chars.len());
    let rest = sub_vec(&chars, i + 2, chars.len());
    if rest.len() == 2 && char_is_ascii_digit(rest[0]) && char_is_ascii_digit(rest[1]) {
        proof {
            assert(all_ascii_digits(rest@));
        }
        string_of(&sub_vec(&chars, 0, i))
    } else {
        proof {
            if rest.len() == 2 && all_ascii_digits(rest@) {
                assert(is_ascii_digit(rest@[0]));
                assert(is_ascii_digit(rest@[1]));
            }
        }
        string_of(&chars)
    }
}

/// The manager an actor bound to `current` moves to for `layer`: the base
/// manager's per-layer pool, or the base manager itself for no layer.
pub open spec fn rebind_target(current: Seq<char>, layer: Option<usize>) -> Seq<char> {
    match layer {
        Some(index) => pool_base(current) + pool_suffix(index as nat),
        None => pool_base(current),
    }
}

/// The base name of `current` with `layer`'s pool suffix, or the base name
/// alone for no layer.
pub fn rebind_target_name(current: &str, layer: Option<usize>) -> (target: String)
    ensures
        target@ == rebind_target(current@, layer),
{
    let base = pool_base_name(current);
    match layer {
        Some(index) => {
            let mut v = chars_of(base.as_str());
            let mut suffix = chars_of(SmsEditorApp::layer_pool_suffix(index).as_str());
            v.append(&mut suffix);
            string_of(&v)
        },
        None => base,
    }
}

/// The manager a placed actor is rebound to when its goop layer changes;
/// `None` when it already uses that manager.
pub fn actor_layer_rebind_target(current: &str, layer: Option<usize>) -> (target: Option<String>)
    ensures
        match target {
            Some(t) => t@ == rebind_target(current@, layer) && t@ != current@,
            None => rebind_target(current@, layer) == current@,
        },
{
    let target = rebind_target_name(current, layer);
    if str_equal(target.as_str(), current) {
        None
    } else {
        Some(target)
    }
}


/// Whether an enemy actor's registered managers include `manager_factory`,
/// both compared without their namespace path.
pub open spec fn manager_matches(manager_factories: Seq<String>, manager_factory: Seq<char>) -> bool {
    exists|i: int|
        0 <= i < manager_factories.len() && semantic_name(#[trigger] manager_factories[i]@)
            == semantic_name(manager_factory)
}

pub fn manager_factory_matches_actor(manager_factories: &Vec<String>, manager_factory: &str) -> (b: bool)
    ensures
        b == manager_matches(manager_factories@, manager_factory@),
{
    let wanted = semantic_factory_name(manager_factory);
    let mut i: usize = 0;
    while i < manager_factories.len()
        invariant
            i <= manager_factories.len(),
            wanted@ == semantic_name(manager_factory@),
            forall|j: int| 0 <= j < i ==> semantic_name(#[trigger] manager_factories@[j]@) != wanted@,
        decreases manager_factories.len() - i,
    {
        let expected = semantic_factory_name(manager_factories[i].as_str());
        if str_equal(expected.as_str(), wanted.as_str()) {
            return true;
        }
        i += 1;
    }
    false
}

/// The factory of the first pool-only carrier bound to `manager_name`.
pub open spec fn pool_actor_factory(objects: Seq<SceneObject>, manager_name: Seq<char>) -> Option<Seq<char>>
    decreases objects.len(),
{
    if objects.len() == 0 {
        None
    } else {
        match pool_actor_factory(objects.drop_last(), manager_name) {
            Some(f) => Some(f),
            None => if objects.last().pool_only && manager_is(objects.last(), manager_name) {
                Some(objects.last().factory_name@)
            } else {
                None
            },
        }
    }
}

/// The actor factory of the pool that carries a manager's enemies.
pub fn active_pool_actor_factory(document: &StageDocument, manager_name: &str) -> (r: Option<String>)
    ensures
        match r {
            Some(f) => pool_actor_factory(document.objects@, manager_name@) == Some(f@),
            None => pool_actor_factory(document.objects@, manager_name@) is None,
        },
{
    let objects = &document.objects;
    let mut i: usize = 0;
    while i < objects.len()
        invariant
            i <= objects@.len(),
            objects@ == document.objects@,
            pool_actor_factory(objects@.take(i as int), manager_name@) is None,
        decreases objects@.len() - i,
    {
        proof {
            assert(objects@.take(i + 1).drop_last() =~= objects@.take(i as int));
        }
        if objects[i].pool_only && manager_equals(&objects[i], manager_name) {
            let f = objects[i].factory_name.clone();
            proof {
                lemma_pool_actor_factory_prefix(objects@, (i + 1) as int, manager_name@);
            }
            return Some(f);
        }
        i += 1;
    }
    proof {
        assert(objects@.take(objects@.len() as int) =~= objects@);
    }
    None
}

/// Once a prefix names a pool, the whole list names the same one.
proof fn lemma_pool_actor_factory_prefix(objects: Seq<SceneObject>, n: int, manager_name: Seq<char>)
    requires
        0 <= n <= objects.len(),
        pool_actor_factory(objects.take(n), manager_name) is Some,
    ensures
        pool_actor_factory(objects, manager_name) == pool_actor_factory(objects.take(n), manager_name),
    decreases objects.len() - n,
{
    if n < objects.len() {
        assert(objects.take(n + 1).drop_last() =~= objects.take(n));
        lemma_pool_actor_factory_prefix(objects, n + 1, manager_name);
    } else {
        assert(objects.take(n) =~= objects);
    }
}

/// The object's `manager_name` is `m`.
pub open spec fn manager_is(o: SceneObject, m: Seq<char>) -> bool {
    raw_param(o, "manager_name"@) == Some(m)
}

/// The object's `manager_name` ends with `suffix`.
pub open spec fn manager_ends_with(o: SceneObject, suffix: Seq<char>) -> bool {
    raw_param(o, "manager_name"@) matches Some(n) && ends_with(n, suffix)
}

/// The position of the first object whose manager name ends with `suffix`.
pub open spec fn first_with_suffix(objects: Seq<SceneObject>, suffix: Seq<char>) -> Option<int> {
    if exists|i: int| 0 <= i < objects.len() && manager_ends_with(objects[i], suffix) {
        Some(
            choose|i: int|
                0 <= i < objects.len() && manager_ends_with(objects[i], suffix) && forall|j: int|
                    0 <= j < i ==> !manager_ends_with(objects[j], suffix),
        )
    } else {
        None
    }
}

proof fn lemma_first_with_suffix(objects: Seq<SceneObject>, suffix: Seq<char>, i: int)
    requires
        0 <= i < objects.len(),
        manager_ends_with(objects[i], suffix),
        forall|j: int| 0 <= j < i ==> !manager_ends_with(objects[j], suffix),
    ensures
        first_with_suffix(objects, suffix) == Some(i),
{
    let k = choose|k: int|
        0 <= k < objects.len() && manager_ends_with(objects[k], suffix) && forall|j: int|
            0 <= j < k ==> !manager_ends_with(objects[j], suffix);
    if k < i {
        assert(!manager_ends_with(objects[k], suffix));
    }
    if i < k {
        assert(!manager_ends_with(objects[i], suffix));
    }
}

proof fn lemma_first_with_suffix_found(objects: Seq<SceneObject>, suffix: Seq<char>, i: int)
    requires
        0 <= i < objects.len(),
        manager_ends_with(objects[i], suffix),
    ensures
        first_with_suffix(objects, suffix) matches Some(k) && 0 <= k < objects.len()
            && manager_ends_with(objects[k], suffix),
    decreases i,
{
    if exists|j: int| 0 <= j < i && manager_ends_with(objects[j], suffix) {
        let j = choose|j: int| 0 <= j < i && manager_ends_with(objects[j], suffix);
        lemma_first_with_suffix_found(objects, suffix, j);
    } else {
        lemma_first_with_suffix(objects, suffix, i);
    }
}

fn manager_has_suffix(o: &SceneObject, suffix: &Vec<char>) -> (b: bool)
    ensures
        b == manager_ends_with(*o, suffix@),
{
    match raw_param_of(o, "manager_name") {
        Some(n) => has_suffix(&chars_of(n.as_str()), suffix),
        None => false,
    }
}

fn manager_equals(o: &SceneObject, m: &str) -> (b: bool)
    ensures
        b == manager_is(*o, m@),
{
    match raw_param_of(o, "manager_name") {
        Some(n) => str_equal(n.as_str(), m),
        None => false,
    }
}

/// Finds the first object whose manager name ends with `suffix`.
fn find_with_suffix(objects: &Vec<SceneObject>, suffix: &Vec<char>) -> (r: Option<usize>)
    ensures
        match r {
            Some(i) => first_with_suffix(objects@, suffix@) == Some(i as int) && i < objects@.len()
                && manager_ends_with(objects@[i as int], suffix@),
            None => first_with_suffix(objects@, suffix@) is None,
        },
{
    let mut i: usize = 0;
    while i < objects.len()
        invariant
            i <= objects.len(),
            forall|j: int| 0 <= j < i ==> !manager_ends_with(objects@[j], suffix@),
        decreases objects.len() - i,
    {
        if manager_has_suffix(&objects[i], suffix) {
            proof {
                lemma_first_with_suffix(objects@, suffix@, i as int);
            }
            return Some(i);
        }
        i += 1;
    }
    None
}

/// The layers a per-layer pool can be bound to, in order: each styled
/// layer's index and style name.
pub open spec fn layer_choices(ls: Seq<GoopLayerView>) -> Seq<(int, Seq<char>)>
    decreases ls.len(),
{
    if ls.len() == 0 {
        Seq::empty()
    } else {
        let rest = layer_choices(ls.drop_last());
        match ls.last().style_name {
            Some(name) => rest.push(((ls.len() - 1) as int, name)),
            None => rest,
        }
    }
}

proof fn lemma_layer_choices_bounds(ls: Seq<GoopLayerView>)
    ensures
        forall|k: int|
            0 <= k < layer_choices(ls).len() ==> 0 <= (#[trigger] layer_choices(ls)[k]).0 < ls.len()
                && ls[layer_choices(ls)[k].0].style_name == Some(layer_choices(ls)[k].1),
        forall|i: int|
            0 <= i < ls.len() && (#[trigger] ls[i]).style_name is Some ==> exists|k: int|
                0 <= k < layer_choices(ls).len() && layer_choices(ls)[k].0 == i,
    decreases ls.len(),
{
    if ls.len() > 0 {
        lemma_layer_choices_bounds(ls.drop_last());
        let rest = layer_choices(ls.drop_last());
        assert forall|k: int| 0 <= k < layer_choices(ls).len() implies 0 <= (#[trigger] layer_choices(
            ls,
        )[k]).0 < ls.len() && ls[layer_choices(ls)[k].0].style_name == Some(
            layer_choices(ls)[k].1,
        ) by {
            if k < rest.len() {
                assert(layer_choices(ls)[k] == rest[k]);
                assert(ls[rest[k].0] == ls.drop_last()[rest[k].0]);
            }
        }
        assert forall|i: int| 0 <= i < ls.len() && (#[trigger] ls[i]).style_name is Some implies exists|k: int|
            0 <= k < layer_choices(ls).len() && layer_choices(ls)[k].0 == i by {
            if i < ls.len() - 1 {
                assert(ls.drop_last()[i] == ls[i]);
                let k = choose|k: int| 0 <= k < rest.len() && rest[k].0 == i;
                assert(layer_choices(ls)[k] == rest[k]);
            } else {
                assert(layer_choices(ls)[rest.len() as int].0 == i);
            }
        }
    }
}

/// The styled layers of optional goop authoring, as choices.
pub open spec fn document_choices(document: Option<StageDocument>) -> Seq<(int, Seq<char>)> {
    match document {
        Some(d) => match authoring_view(d.goop_authoring) {
            Some(ls) => layer_choices(ls),
            None => Seq::empty(),
        },
        None => Seq::empty(),
    }
}

/// What each goop layer does to a spawn that lands in it.
#[derive(Debug, PartialEq, Eq)]
pub enum RuntimeGoopLayerBinding {
    /// Spawns in the layer come from this manager's pool.
    Pool(String),
    /// Nothing spawns in the layer.
    Empty,
}

proof fn lemma_layer_choices_step(ls: Seq<GoopLayerView>, i: int)
    requires
        0 <= i < ls.len(),
    ensures
        layer_choices(ls.take(i + 1)) == match ls[i].style_name {
            Some(name) => layer_choices(ls.take(i)).push((i, name)),
            None => layer_choices(ls.take(i)),
        },
{
    assert(ls.take(i + 1).drop_last() =~= ls.take(i));
}

/// The styled layer `i` of a stage, if the stage has goop authoring.
pub open spec fn styled_layer(document: StageDocument, i: int) -> bool {
    authoring_view(document.goop_authoring) matches Some(ls) && 0 <= i < ls.len()
        && ls[i].style_name is Some
}

/// Some styled layer has a pool: an object whose manager name carries the
/// layer's pool suffix.
pub open spec fn any_layer_pool(document: StageDocument) -> bool {
    exists|i: int|
        #[trigger] styled_layer(document, i) && first_with_suffix(
            document.objects@,
            pool_suffix(i as nat),
        ) is Some
}

/// The layer bindings of a stage: each styled layer is bound to the first
/// object's manager that carries the layer's pool suffix, or to nothing; no
/// bindings at all when no styled layer has a pool.
pub open spec fn spawn_bindings(document: StageDocument, m: Map<usize, RuntimeGoopLayerBinding>) -> bool {
    let objects = document.objects@;
    if any_layer_pool(document) {
        &&& forall|i: usize| #[trigger] m.contains_key(i) <==> styled_layer(document, i as int)
        &&& forall|i: usize|
            #[trigger] m.contains_key(i) ==> match first_with_suffix(objects, pool_suffix(i as nat)) {
                Some(o) => m[i] matches RuntimeGoopLayerBinding::Pool(name) && raw_param(
                    objects[o],
                    "manager_name"@,
                ) == Some(name@),
                None => m[i] == RuntimeGoopLayerBinding::Empty,
            }
    } else {
        m.dom() == Set::<usize>::empty()
    }
}

/// The per-layer pools of a stage: each styled layer that has a pool, bound
/// to the manager name of the first object carrying the layer's suffix.
pub open spec fn pool_bindings(document: StageDocument, m: Map<usize, String>) -> bool {
    let objects = document.objects@;
    &&& forall|i: usize|
        #[trigger] m.contains_key(i) <==> styled_layer(document, i as int) && first_with_suffix(
            objects,
            pool_suffix(i as nat),
        ) is Some
    &&& forall|i: usize|
        #[trigger] m.contains_key(i) ==> raw_param(objects[first_with_suffix(
            objects,
            pool_suffix(i as nat),
        )->0], "manager_name"@) == Some(m[i]@)
}

/// The name of the first object whose manager carries a layer's pool suffix.
fn layer_pool_name(objects: &Vec<SceneObject>, layer: usize) -> (r: Option<String>)
    ensures
        match r {
            Some(name) => first_with_suffix(objects@, pool_suffix(layer as nat)) matches Some(o)
                && raw_param(objects@[o], "manager_name"@) == Some(name@),
            None => first_with_suffix(objects@, pool_suffix(layer as nat)) is None,
        },
{
    let suffix = chars_of(SmsEditorApp::layer_pool_suffix(layer).as_str());
    match find_with_suffix(objects, &suffix) {
        Some(o) => match raw_param_of(&objects[o], "manager_name") {
            Some(n) => Some(n.clone()),
            None => None,
        },
        None => None,
    }
}

/// The goop layer bindings the build's runtime patch consumes.
pub fn goop_layer_spawn_bindings(document: &StageDocument) -> (m: BTreeMap<
    usize,
    RuntimeGoopLayerBinding,
>)
    ensures
        spawn_bindings(*document, m@),
{
    let mut bindings: BTreeMap<usize, RuntimeGoopLayerBinding> = BTreeMap::new();
    let authoring = match &document.goop_authoring {
        Some(a) => a,
        None => {
            proof {
                assert(bindings@.dom() =~= Set::<usize>::empty());
            }
            return bindings;
        },
    };
    let ghost objects = document.objects@;
    let mut any_pool = false;
    let mut i: usize = 0;
    while i < authoring.layers.len()
        invariant
            i <= authoring.layers.len(),
            authoring_view(document.goop_authoring) == Some(authoring@),
            objects == document.objects@,
            forall|key: usize|
                #[trigger] bindings@.contains_key(key) <==> key < i && styled_layer(*document, key as int),
            forall|key: usize|
                #[trigger] bindings@.contains_key(key) ==> match first_with_suffix(
                    objects,
                    pool_suffix(key as nat),
                ) {
                    Some(o) => bindings@[key] matches RuntimeGoopLayerBinding::Pool(name)
                        && raw_param(objects[o], "manager_name"@) == Some(name@),
                    None => bindings@[key] == RuntimeGoopLayerBinding::Empty,
                },
            any_pool <==> exists|key: int|
                0 <= key < i && #[trigger] styled_layer(*document, key) && first_with_suffix(
                    objects,
                    pool_suffix(key as nat),
                ) is Some,
        decreases authoring.layers.len() - i,
    {
        if authoring.layers[i].style_name.is_some() {
            assert(styled_layer(*document, i as int));
            match layer_pool_name(&document.objects, i) {
                Some(name) => {
                    bindings.insert(i, RuntimeGoopLayerBinding::Pool(name));
                    any_pool = true;
                },
                None => {
                    bindings.insert(i, RuntimeGoopLayerBinding::Empty);
                },
            }
        } else {
            assert(!styled_layer(*document, i as int));
        }
        i += 1;
    }
    if !any_pool {
        let empty: BTreeMap<usize, RuntimeGoopLayerBinding> = BTreeMap::new();
        proof {
            assert(empty@.dom() =~= Set::<usize>::empty());
            assert forall|key: int| #[trigger] styled_layer(*document, key) implies first_with_suffix(
                objects,
                pool_suffix(key as nat),
            ) is None by {}
        }
        return empty;
    }
    bindings
}

impl SmsEditorApp {
    /// Whether any hand-placed (not pool-only) actor is bound to `manager`.
    pub fn placed_actors_use_manager(&self, manager: &str) -> (b: bool)
        ensures
            b == (self.document matches Some(d) && exists|i: int|
                0 <= i < d.objects@.len() && !d.objects@[i].pool_only && manager_is(
                    #[trigger] d.objects@[i],
                    manager@,
                )),
    {
        let document = match &self.document {
            Some(d) => d,
            None => return false,
        };
        let mut i: usize = 0;
        while i < document.objects.len()
            invariant
                i <= document.objects.len(),
                self.document == Some(*document),
                forall|j: int|
                    0 <= j < i ==> !(!document.objects@[j].pool_only && manager_is(
                        #[trigger] document.objects@[j],
                        manager@,
                    )),
            decreases document.objects.len() - i,
        {
            if !document.objects[i].pool_only && manager_equals(&document.objects[i], manager) {
                assert(manager_is(document.objects@[i as int], manager@));
                return true;
            }
            i += 1;
        }
        false
    }

    /// Whether a per-layer pool exists for this manager and layer.
    pub fn layer_pool_exists(&self, manager_name: &str, layer_index: usize) -> (b: bool)
        ensures
            b == (self.document matches Some(d) && exists|i: int|
                0 <= i < d.objects@.len() && manager_is(
                    #[trigger] d.objects@[i],
                    manager_name@ + pool_suffix(layer_index as nat),
                )),
    {
        let mut cloned = chars_of(manager_name);
        let mut suffix = chars_of(SmsEditorApp::layer_pool_suffix(layer_index).as_str());
        cloned.append(&mut suffix);
        let cloned = string_of(&cloned);
        let document = match &self.document {
            Some(d) => d,
            None => return false,
        };
        let mut i: usize = 0;
        while i < document.objects.len()
            invariant
                i <= document.objects.len(),
                self.document == Some(*document),
                cloned@ == manager_name@ + pool_suffix(layer_index as nat),
                forall|j: int| 0 <= j < i ==> !manager_is(#[trigger] document.objects@[j], cloned@),
            decreases document.objects.len() - i,
        {
            if manager_equals(&document.objects[i], cloned.as_str()) {
                assert(manager_is(document.objects@[i as int], cloned@));
                return true;
            }
            i += 1;
        }
        false
    }

    /// The goop layers a per-layer pool can be bound to: index and style name.
    pub fn goop_layer_choices(&self) -> (choices: Vec<(usize, String)>)
        ensures
            choices@.len() == document_choices(self.document).len(),
            forall|k: int|
                0 <= k < choices@.len() ==> (#[trigger] choices@[k]).0 == document_choices(
                    self.document,
                )[k].0 && choices@[k].1@ == document_choices(self.document)[k].1,
    {
        let mut choices: Vec<(usize, String)> = Vec::new();
        let document = match &self.document {
            Some(d) => d,
            None => return choices,
        };
        let authoring = match &document.goop_authoring {
            Some(a) => a,
            None => return choices,
        };
        let ghost ls = authoring@;
        let mut i: usize = 0;
        while i < authoring.layers.len()
            invariant
                i <= authoring.layers.len(),
                ls == authoring@,
                choices@.len() == layer_choices(ls.take(i as int)).len(),
                forall|k: int|
                    0 <= k < choices@.len() ==> (#[trigger] choices@[k]).0 == layer_choices(
                        ls.take(i as int),
                    )[k].0 && choices@[k].1@ == layer_choices(ls.take(i as int))[k].1,
            decreases authoring.layers.len() - i,
        {
            proof {
                lemma_layer_choices_step(ls, i as int);
            }
            match &authoring.layers[i].style_name {
                Some(name) => {
                    choices.push((i, name.clone()));
                },
                None => {},
            }
            i += 1;
        }
        proof {
            assert(ls.take(ls.len() as int) =~= ls);
        }
        choices
    }

    /// Every per-layer pool this stage carries, as layer index and manager
    /// name: what the runtime patch consumes.
    pub fn layer_pool_bindings(&self) -> (m: BTreeMap<usize, String>)
        ensures
            self.document is None ==> m@.dom() == Set::<usize>::empty(),
            self.document matches Some(d) ==> pool_bindings(d, m@),
    {
        let mut bindings: BTreeMap<usize, String> = BTreeMap::new();
        let document = match &self.document {
            Some(d) => d,
            None => {
                proof {
                    assert(bindings@.dom() =~= Set::<usize>::empty());
                }
                return bindings;
            },
        };
        let authoring = match &document.goop_authoring {
            Some(a) => a,
            None => {
                proof {
                    assert(bindings@.dom() =~= Set::<usize>::empty());
                }
                return bindings;
            },
        };
        let ghost objects = document.objects@;
        let mut i: usize = 0;
        while i < authoring.layers.len()
            invariant
                i <= authoring.layers.len(),
                self.document == Some(*document),
                authoring_view(document.goop_authoring) == Some(authoring@),
                objects == document.objects@,
                forall|key: usize|
                    #[trigger] bindings@.contains_key(key) <==> key < i && styled_layer(
                        *document,
                        key as int,
                    ) && first_with_suffix(objects, pool_suffix(key as nat)) is Some,
                forall|key: usize|
                    #[trigger] bindings@.contains_key(key) ==> raw_param(objects[first_with_suffix(
                        objects,
                        pool_suffix(key as nat),
                    )->0], "manager_name"@) == Some(bindings@[key]@),
            decreases authoring.layers.len() - i,
        {
            if authoring.layers[i].style_name.is_some() {
                assert(styled_layer(*document, i as int));
                match layer_pool_name(&document.objects, i) {
                    Some(name) => {
                        bindings.insert(i, name);
                    },
                    None => {},
                }
            } else {
                assert(!styled_layer(*document, i as int));
            }
            i += 1;
        }
        bindings
    }
}


/// Whether a raw archive path lies outside every per-layer pool folder.
pub open spec fn edit_outside_pools(raw: Seq<u8>) -> bool {
    !layer_pool_folder(first_segment(trim_char(replace_char(utf8_lossy(raw), '\\', '/'), '/')))
}

/// Whether an archive edit lies outside every per-layer pool folder.
pub open spec fn base_pool_edit() -> spec_fn(ResourceEdit) -> bool {
    |e: ResourceEdit| edit_outside_pools(e.raw_resource_path@)
}

/// A model edit that can take the Stu stain: it has the stain slot and its
/// stain material can be pinned.
pub open spec fn stain_ready(e: ResourceEdit) -> bool {
    e.model matches Some(m) && m.has_stain_dummy_texture && m.can_pin_stain_blend
}

/// A model edit whose stain material is pinned.
pub open spec fn stain_pinned(e: ResourceEdit) -> bool {
    e.model matches Some(m) && m.stain_blend_pinned
}

/// Some base-pool edit can take the stage-wide stain.
pub open spec fn stain_available_in(rs: Seq<ResourceEdit>) -> bool {
    exists|i: int| 0 <= i < rs.len() && edit_outside_pools((#[trigger] rs[i]).raw_resource_path@) && stain_ready(rs[i])
}

/// Some base-pool edit carries the baked stain.
pub open spec fn stain_baked_in(rs: Seq<ResourceEdit>) -> bool {
    exists|i: int| 0 <= i < rs.len() && edit_outside_pools((#[trigger] rs[i]).raw_resource_path@) && stain_pinned(rs[i])
}

impl SmsEditorApp {
    /// Whether the effective enemy table flags `manager`, or its hidden
    /// goop pool, to spawn from goop.
    pub fn manager_spawns_from_goop(&self, manager: &str) -> (b: bool)
        ensures
            b == (self.document matches Some(d) && d.tables matches Some(t) && tree_has(
                t,
                QueryView::SpawningEntry(manager@, manager@ + goop_pool_suffix()),
            )),
    {
        let document = match &self.document {
            Some(d) => d,
            None => return false,
        };
        let tables = match &document.tables {
            Some(t) => t,
            None => return false,
        };
        let mut pool = chars_of(manager);
        let mut suffix = chars_of("_gp");
        pool.append(&mut suffix);
        let query = RecordQuery::SpawningEntry(string_of(&chars_of(manager)), string_of(&pool));
        any_record(tables, &query)
    }

    /// Whether some base-pool model can take the stage-wide Stu stain: it
    /// has the stain slot and its stain material can be pinned.
    pub fn stu_stain_available(&self) -> (b: bool)
        ensures
            b == (self.document matches Some(d) && stain_available_in(d.resource_edits@)),
    {
        let document = match &self.document {
            Some(d) => d,
            None => return false,
        };
        let mut i: usize = 0;
        while i < document.resource_edits.len()
            invariant
                i <= document.resource_edits.len(),
                self.document == Some(*document),
                forall|j: int|
                    0 <= j < i ==> !(edit_outside_pools(
                        (#[trigger] document.resource_edits@[j]).raw_resource_path@,
                    ) && (document.resource_edits@[j].model matches Some(m)
                        && m.has_stain_dummy_texture && m.can_pin_stain_blend)),
            decreases document.resource_edits.len() - i,
        {
            let edit = &document.resource_edits[i];
            if SmsEditorApp::edit_outside_layer_pool_folders(edit.raw_resource_path.as_slice()) {
                match &edit.model {
                    Some(m) => {
                        if m.has_stain_dummy_texture && m.can_pin_stain_blend {
                            return true;
                        }
                    },
                    None => {},
                }
            }
            i += 1;
        }
        false
    }

    /// Whether a base-pool Stu model carries the baked stain.
    pub fn stu_stain_baked(&self) -> (b: bool)
        ensures
            b == (self.document matches Some(d) && stain_baked_in(d.resource_edits@)),
    {
        let document = match &self.document {
            Some(d) => d,
            None => return false,
        };
        let mut i: usize = 0;
        while i < document.resource_edits.len()
            invariant
                i <= document.resource_edits.len(),
                self.document == Some(*document),
                forall|j: int|
                    0 <= j < i ==> !(edit_outside_pools(
                        (#[trigger] document.resource_edits@[j]).raw_resource_path@,
                    ) && (document.resource_edits@[j].model matches Some(m) && m.stain_blend_pinned)),
            decreases document.resource_edits.len() - i,
        {
            let edit = &document.resource_edits[i];
            if SmsEditorApp::edit_outside_layer_pool_folders(edit.raw_resource_path.as_slice()) {
                match &edit.model {
                    Some(m) => {
                        if m.stain_blend_pinned {
                            return true;
                        }
                    },
                    None => {},
                }
            }
            i += 1;
        }
        false
    }
}

/// A per-layer pool's manager name gives back the layer it was made for and
/// the manager it was cloned from.
pub proof fn pool_suffix_names_its_layer(manager: Seq<char>, layer: nat)
    requires
        layer < 100,
    ensures
        pool_layer(manager + pool_suffix(layer)) == Some(layer),
        pool_base(manager + pool_suffix(layer)) == manager,
{
    let name = manager + pool_suffix(layer);
    let d = two_digits(layer);
    let marker = seq!['_', 'L'];
    let at = manager.len() as int;
    assert(d.len() == 2) by {
        reveal_with_fuel(crate::text::decimal, 3);
    }
    assert(name.subrange(at, at + 2) =~= marker);
    assert(occurs_at(name, marker, at));
    assert forall|j: int| at < j implies !occurs_at(name, marker, j) by {
        if occurs_at(name, marker, j) {
            assert(name.subrange(j, j + 2)[0] == '_');
            assert(name[j] == '_');
            assert(j == at + 2 || j == at + 3);
            assert(is_ascii_digit(d[j - at - 2])) by {
                reveal_with_fuel(crate::text::decimal, 3);
            }
        }
    }
    let i = choose|i: int| occurs_at(name, marker, i) && forall|j: int| i < j ==> !occurs_at(name, marker, j);
    if i < at {
        assert(!occurs_at(name, marker, at));
    }
    if at < i {
        assert(!occurs_at(name, marker, i));
    }
    let rest = name.subrange(at + 2, name.len() as int);
    assert(rest =~= d);
    assert(all_ascii_digits(rest) && digits_value(rest) == layer) by {
        reveal_with_fuel(crate::text::decimal, 3);
        reveal_with_fuel(digits_value, 3);
        assert(rest.drop_last().drop_last() =~= Seq::<char>::empty());
    }
    assert(name.take(at) =~= manager);
}

proof fn lemma_two_digits_back(rest: Seq<char>)
    requires
        rest.len() == 2,
        all_ascii_digits(rest),
    ensures
        digits_value(rest) < 100,
        two_digits(digits_value(rest)) == rest,
{
    let a = rest[0];
    let b = rest[1];
    assert(is_ascii_digit(a) && is_ascii_digit(b));
    let d0 = ((a as u32) - 48) as nat;
    let d1 = ((b as u32) - 48) as nat;
    assert(rest.drop_last().drop_last() =~= Seq::<char>::empty());
    assert(rest.drop_last() =~= seq![a]);
    let l = digits_value(rest);
    assert(l == d0 * 10 + d1) by {
        reveal_with_fuel(digits_value, 3);
    }
    assert(crate::text::digit_char(d1) == b);
    assert(crate::text::digit_char(d0) == a);
    if l >= 10 {
        assert(l / 10 == d0);
        assert(l % 10 == d1);
        assert(two_digits(l) =~= rest) by {
            reveal_with_fuel(crate::text::decimal, 3);
        }
    } else {
        assert(two_digits(l) =~= rest);
    }
}

proof fn lemma_last_marker(name: Seq<char>, i: int)
    requires
        occurs_at(name, seq!['_', 'L'], i),
    ensures
        exists|k: int|
            occurs_at(name, seq!['_', 'L'], k) && forall|j: int| k < j ==> !occurs_at(name, seq!['_', 'L'], j),
    decreases name.len() - i,
{
    if exists|j: int| i < j && occurs_at(name, seq!['_', 'L'], j) {
        let j = choose|j: int| i < j && occurs_at(name, seq!['_', 'L'], j);
        lemma_last_marker(name, j);
    } else {
        assert(forall|j: int| i < j ==> !occurs_at(name, seq!['_', 'L'], j));
    }
}

/// A manager name routes to a goop layer only when its last `_L` is
/// followed by exactly two ASCII digits: the name is then its base name with
/// that layer's pool suffix, so "m_L1", "m_L123" and "m" route nowhere.
pub proof fn pool_layer_reads_only_pool_suffixes(name: Seq<char>)
    ensures
        pool_layer(name) matches Some(l) ==> l < 100 && name == pool_base(name) + pool_suffix(l),
{
    if let Some(l) = pool_layer(name) {
        let i0 = choose|i: int| occurs_at(name, seq!['_', 'L'], i);
        lemma_last_marker(name, i0);
        let i = choose|i: int|
            occurs_at(name, seq!['_', 'L'], i) && forall|j: int|
                i < j ==> !occurs_at(name, seq!['_', 'L'], j);
        let rest = name.subrange(i + 2, name.len() as int);
        lemma_two_digits_back(rest);
        assert(name.subrange(i, i + 2) =~= seq!['_', 'L']);
        assert(name =~= name.take(i) + pool_suffix(l));
    }
}

/// Rebinding an actor to a layer binds it to that layer's pool of its base
/// manager, whatever pool it used before.
pub proof fn rebinding_targets_the_layer_pool(current: Seq<char>, layer: usize)
    requires
        layer < 100,
    ensures
        pool_layer(rebind_target(current, Some(layer))) == Some(layer as nat),
        pool_base(rebind_target(current, Some(layer))) == pool_base(current),
{
    pool_suffix_names_its_layer(pool_base(current), layer as nat);
}

proof fn lemma_layer_pool_has_key(document: StageDocument, pools: Map<usize, String>, l: int)
    requires
        pool_bindings(document, pools),
        styled_layer(document, l),
        first_with_suffix(document.objects@, pool_suffix(l as nat)) is Some,
    ensures
        0 <= l <= usize::MAX,
        pools.contains_key(l as usize),
{
    let layers = document.goop_authoring->0.layers;
    assert(layers.len() == layers@.len());
    assert(styled_layer(document, (l as usize) as int));
}

proof fn lemma_pools_mean_some_layer_pool(document: StageDocument, pools: Map<usize, String>)
    requires
        pool_bindings(document, pools),
    ensures
        any_layer_pool(document) <==> pools.dom() != Set::<usize>::empty(),
{
    let objects = document.objects@;
    if any_layer_pool(document) {
        let l = choose|l: int|
            #[trigger] styled_layer(document, l) && first_with_suffix(objects, pool_suffix(l as nat)) is Some;
        lemma_layer_pool_has_key(document, pools, l);
        assert(pools.dom().contains(l as usize));
    } else {
        assert forall|i: usize| !#[trigger] pools.contains_key(i) by {
            if pools.contains_key(i) {
                assert(styled_layer(document, i as int));
            }
        }
        assert(pools.dom() =~= Set::<usize>::empty());
    }
}

proof fn lemma_pool_names_carry_suffix(document: StageDocument, pools: Map<usize, String>, i: usize)
    requires
        pool_bindings(document, pools),
        pools.contains_key(i),
    ensures
        ends_with(pools[i]@, pool_suffix(i as nat)),
{
    let objects = document.objects@;
    let suffix = pool_suffix(i as nat);
    assert(first_with_suffix(objects, suffix) is Some);
    let w = choose|k: int| 0 <= k < objects.len() && manager_ends_with(objects[k], suffix);
    lemma_first_with_suffix_found(objects, suffix, w);
}

/// The runtime layer bindings are the per-layer pools spread over the styled
/// layers: no bindings at all when no layer has a pool; otherwise every styled
/// layer is bound, to its pool's manager where it has one and to nothing where
/// it has none. Every pool's manager name ends with its layer's pool suffix.
pub proof fn spawn_bindings_follow_pool_bindings(
    document: StageDocument,
    spawn: Map<usize, RuntimeGoopLayerBinding>,
    pools: Map<usize, String>,
)
    requires
        spawn_bindings(document, spawn),
        pool_bindings(document, pools),
    ensures
        pools.dom() == Set::<usize>::empty() ==> spawn.dom() == Set::<usize>::empty(),
        pools.dom() != Set::<usize>::empty() ==> forall|i: usize|
            #[trigger] spawn.contains_key(i) <==> styled_layer(document, i as int),
        forall|i: usize|
            #[trigger] pools.contains_key(i) ==> spawn.contains_key(i) && (spawn[i] matches RuntimeGoopLayerBinding::Pool(
                name,
            ) && name@ == pools[i]@),
        forall|i: usize|
            #[trigger] spawn.contains_key(i) && !pools.contains_key(i) ==> spawn[i]
                == RuntimeGoopLayerBinding::Empty,
        forall|i: usize| #[trigger] pools.contains_key(i) ==> ends_with(pools[i]@, pool_suffix(i as nat)),
{
    lemma_pools_mean_some_layer_pool(document, pools);
    assert forall|i: usize| #[trigger] pools.contains_key(i) implies ends_with(
        pools[i]@,
        pool_suffix(i as nat),
    ) by {
        lemma_pool_names_carry_suffix(document, pools, i);
    }
    assert forall|i: usize| #[trigger] pools.contains_key(i) implies spawn.contains_key(i) && (
    spawn[i] matches RuntimeGoopLayerBinding::Pool(name) && name@ == pools[i]@) by {
        let objects = document.objects@;
        assert(styled_layer(document, i as int));
        assert(first_with_suffix(objects, pool_suffix(i as nat)) is Some);
        assert(any_layer_pool(document));
        assert(spawn.contains_key(i));
    }
}

proof fn lemma_base_pool_witness(rs: Seq<ResourceEdit>, good: spec_fn(ResourceEdit) -> bool)
    ensures
        (exists|i: int| 0 <= i < rs.len() && edit_outside_pools((#[trigger] rs[i]).raw_resource_path@) && good(rs[i]))
            <==> (exists|k: int| 0 <= k < rs.filter(base_pool_edit()).len() && good(
            #[trigger] rs.filter(base_pool_edit())[k],
        )),
{
    let f = rs.filter(base_pool_edit());
    if exists|i: int| 0 <= i < rs.len() && edit_outside_pools((#[trigger] rs[i]).raw_resource_path@) && good(rs[i]) {
        let i = choose|i: int| 0 <= i < rs.len() && edit_outside_pools((#[trigger] rs[i]).raw_resource_path@) && good(rs[i]);
        rs.lemma_filter_contains(base_pool_edit(), i);
        let k = choose|k: int| 0 <= k < f.len() && f[k] == rs[i];
        assert(good(f[k]));
    }
    if exists|k: int| 0 <= k < f.len() && good(#[trigger] f[k]) {
        let k = choose|k: int| 0 <= k < f.len() && good(#[trigger] f[k]);
        rs.lemma_filter_pred(base_pool_edit(), k);
        assert(f.contains(f[k]));
        rs.lemma_filter_contains_rev(base_pool_edit(), f[k]);
        let i = choose|i: int| 0 <= i < rs.len() && rs[i] == f[k];
        assert(edit_outside_pools(rs[i].raw_resource_path@) && good(rs[i]));
    }
}

/// A per-layer pool never decides the stage-wide stain toggle: two stages
/// whose archive edits outside the pool folders are the same (whatever
/// their pools' edits) agree on whether the stain is available and whether
/// it is baked.
pub proof fn pool_edits_never_decide_the_stain(rs1: Seq<ResourceEdit>, rs2: Seq<ResourceEdit>)
    requires
        rs1.filter(base_pool_edit()) == rs2.filter(base_pool_edit()),
    ensures
        stain_available_in(rs1) == stain_available_in(rs2),
        stain_baked_in(rs1) == stain_baked_in(rs2),
{
    let ready = |e: ResourceEdit| stain_ready(e);
    let pinned = |e: ResourceEdit| stain_pinned(e);
    lemma_base_pool_witness(rs1, ready);
    lemma_base_pool_witness(rs2, ready);
    lemma_base_pool_witness(rs1, pinned);
    lemma_base_pool_witness(rs2, pinned);
}

} // verus!
