//! The rules for preparing Dolphin's graphics-mod profile so the Native
//! Resolution Goop mod bundled with Dolphin is enabled for the managed game:
//! which game IDs qualify, and what the profile's mod list needs.
use vstd::prelude::*;
use crate::text::{
    char_from_ascii, char_is_ascii_alphanumeric, chars_of, is_ascii_alphanumeric, replace_char,
    replace_char_vec, seq_equal, starts_with, str_starts_with, string_of,
};

verus! {

/// The path, inside Dolphin's system graphics mods, of the bundled mod.
pub open spec fn sms_graphics_mod_path() -> Seq<char> {
    "Super Mario Sunshine/metadata.json"@
}

pub open spec fn ascii_chars(bytes: Seq<u8>) -> Seq<char> {
    bytes.map_values(|b: u8| b as char)
}

/// The game ID in a managed game's `sys/boot.bin`: its first six bytes, all
/// ASCII letters or digits.
pub open spec fn game_id_of(boot: Seq<u8>) -> Option<Seq<char>> {
    if boot.len() < 6 {
        None
    } else if forall|i: int| 0 <= i < 6 ==> is_ascii_alphanumeric(#[trigger] boot[i] as char) {
        Some(ascii_chars(boot.take(6)))
    } else {
        None
    }
}

/// Reads the game ID from the bytes of a managed game's `sys/boot.bin`;
/// `display` is how the header's path shows.
pub fn managed_game_id(boot: &[u8], display: &str) -> (r: Result<String, String>)
    ensures
        boot@.len() < 6 ==> (r matches Err(m) && m@ == "managed game header '"@ + display@
            + "' is shorter than its six-byte game ID"@),
        boot@.len() >= 6 && game_id_of(boot@) is None ==> (r matches Err(m) && m@
            == "managed game header '"@ + display@ + "' contains a non-ASCII game ID"@),
        game_id_of(boot@) matches Some(id) ==> r matches Ok(s) && s@ == id,
{
    if boot.len() < 6 {
        let mut m = chars_of("managed game header '");
        let mut d = chars_of(display);
        m.append(&mut d);
        let mut tail = chars_of("' is shorter than its six-byte game ID");
        m.append(&mut tail);
        return Err(string_of(&m));
    }
    let mut id: Vec<char> = Vec::new();
    let mut i: usize = 0;
    while i < 6
        invariant
            i <= 6,
            6 <= boot@.len(),
            id@.len() == i,
            forall|k: int| 0 <= k < i ==> #[trigger] id@[k] == boot@[k] as char,
            forall|k: int| 0 <= k < i ==> is_ascii_alphanumeric(#[trigger] boot@[k] as char),
        decreases 6 - i,
    {
        let c = char_from_ascii_or_replacement(boot[i]);
        if !char_is_ascii_alphanumeric(c) {
            let mut m = chars_of("managed game header '");
            let mut d = chars_of(display);
            m.append(&mut d);
            let mut tail = chars_of("' contains a non-ASCII game ID");
            m.append(&mut tail);
            return Err(string_of(&m));
        }
        id.push(c);
        i += 1;
    }
    assert(id@ =~= ascii_chars(boot@.take(6)));
    Ok(string_of(&id))
}

/// The byte as a character when it is ASCII, else a character that is no
/// ASCII letter or digit.
fn char_from_ascii_or_replacement(b: u8) -> (c: char)
    ensures
        b < 128 ==> c == b as char,
        b >= 128 ==> !is_ascii_alphanumeric(c) && !is_ascii_alphanumeric(b as char),
{
    if b < 128 {
        char_from_ascii(b)
    } else {
        '\u{fffd}'
    }
}

/// The managed game must be a Super Mario Sunshine release: its ID starts
/// with `GMS`.
pub fn check_sunshine_game(game_id: &str, display: &str) -> (r: Result<(), String>)
    ensures
        starts_with(game_id@, "GMS"@) ==> r is Ok,
        !starts_with(game_id@, "GMS"@) ==> (r matches Err(m) && m@ == "managed game '"@ + display@
            + "' has ID '"@ + game_id@ + "', not a Super Mario Sunshine ID"@),
{
    if str_starts_with(game_id, "GMS") {
        return Ok(());
    }
    let mut m = chars_of("managed game '");
    let mut d = chars_of(display);
    m.append(&mut d);
    let mut mid = chars_of("' has ID '");
    m.append(&mut mid);
    let mut id = chars_of(game_id);
    m.append(&mut id);
    let mut tail = chars_of("', not a Super Mario Sunshine ID");
    m.append(&mut tail);
    Err(string_of(&m))
}

/// One entry of the profile's `mods` list, as the rule reads it: its
/// `source` and `path` when they are strings, and `enabled` when it is a
/// boolean.
pub struct GraphicsModEntry {
    pub source: Option<String>,
    pub path: Option<String>,
    pub enabled: Option<bool>,
}

/// The graphics-mod profile as the rule reads it.
pub enum GraphicsProfile {
    /// The profile's top level is not a JSON object.
    NotObject,
    /// Its `mods` field is there but not an array.
    ModsNotArray,
    /// Its `mods` entries, none when the field is missing.
    Mods(Vec<GraphicsModEntry>),
}

/// What the profile needs.
#[derive(Debug, Clone, Copy, PartialEq, Eq)]
pub enum GraphicsModAction {
    /// The bundled mod is already enabled.
    Unchanged,
    /// Set `enabled` to true on the entry at this position.
    Enable(usize),
    /// Append an enabled system entry for the bundled mod.
    Append,
}

/// Whether an entry is the system entry of the bundled mod, its path read
/// with backslashes as slashes.
pub open spec fn is_bundled_entry(e: GraphicsModEntry) -> bool {
    (e.source matches Some(s) && s@ == "system"@) && (e.path matches Some(p) && replace_char(
        p@,
        '\\',
        '/',
    ) == sms_graphics_mod_path())
}

/// The position of the first bundled-mod entry.
pub open spec fn bundled_entry(entries: Seq<GraphicsModEntry>) -> Option<int> {
    if exists|i: int| 0 <= i < entries.len() && is_bundled_entry(entries[i]) {
        Some(
            choose|i: int|
                0 <= i < entries.len() && is_bundled_entry(entries[i]) && forall|j: int|
                    0 <= j < i ==> !is_bundled_entry(entries[j]),
        )
    } else {
        None
    }
}

/// What a profile needs: nothing when the first bundled-mod entry is
/// enabled, enabling it when it is not, or a new entry when there is none.
pub open spec fn mod_action(entries: Seq<GraphicsModEntry>) -> GraphicsModAction {
    match bundled_entry(entries) {
        Some(i) => if entries[i].enabled == Some(true) {
            GraphicsModAction::Unchanged
        } else {
            GraphicsModAction::Enable(i as usize)
        },
        None => GraphicsModAction::Append,
    }
}

fn is_bundled(entry: &GraphicsModEntry) -> (b: bool)
    ensures
        b == is_bundled_entry(*entry),
{
    let system = match &entry.source {
        Some(s) => crate::text::str_equal(s.as_str(), "system"),
        None => false,
    };
    if !system {
        return false;
    }
    match &entry.path {
        Some(p) => {
            let normalised = replace_char_vec(&chars_of(p.as_str()), '\\', '/');
            seq_equal(&normalised, &chars_of("Super Mario Sunshine/metadata.json"))
        },
        None => false,
    }
}

/// Decides how to enable the bundled Native Resolution Goop mod in a
/// graphics-mod profile; `display` is how the profile's path shows.
pub fn graphics_mod_action(profile: &GraphicsProfile, display: &str) -> (r: Result<
    GraphicsModAction,
    String,
>)
    ensures
        match profile {
            GraphicsProfile::NotObject => r matches Err(m) && m@ == "Dolphin graphics-mod profile '"@
                + display@ + "' is not a JSON object"@,
            GraphicsProfile::ModsNotArray => r matches Err(m) && m@
                == "Dolphin graphics-mod profile '"@ + display@ + "' has a non-array mods field"@,
            GraphicsProfile::Mods(entries) => r == Ok::<GraphicsModAction, String>(
                mod_action(entries@),
            ),
        },
{
    let entries = match profile {
        GraphicsProfile::NotObject => {
            let mut m = chars_of("Dolphin graphics-mod profile '");
            let mut d = chars_of(display);
            m.append(&mut d);
            let mut tail = chars_of("' is not a JSON object");
            m.append(&mut tail);
            return Err(string_of(&m));
        },
        GraphicsProfile::ModsNotArray => {
            let mut m = chars_of("Dolphin graphics-mod profile '");
            let mut d = chars_of(display);
            m.append(&mut d);
            let mut tail = chars_of("' has a non-array mods field");
            m.append(&mut tail);
            return Err(string_of(&m));
        },
        GraphicsProfile::Mods(entries) => entries,
    };
    let mut i: usize = 0;
    while i < entries.len()
        invariant
            i <= entries.len(),
            profile matches GraphicsProfile::Mods(e) && e@ == entries@,
            forall|j: int| 0 <= j < i ==> !is_bundled_entry(#[trigger] entries@[j]),
        decreases entries.len() - i,
    {
        if is_bundled(&entries[i]) {
            proof {
                let k = choose|k: int|
                    0 <= k < entries@.len() && is_bundled_entry(entries@[k]) && forall|j: int|
                        0 <= j < k ==> !is_bundled_entry(entries@[j]);
                if k < i {
                    assert(!is_bundled_entry(entries@[k]));
                }
                if i < k {
                    assert(!is_bundled_entry(entries@[i as int]));
                }
            }
            if entries[i].enabled == Some(true) {
                return Ok(GraphicsModAction::Unchanged);
            }
            return Ok(GraphicsModAction::Enable(i));
        }
        i += 1;
    }
    Ok(GraphicsModAction::Append)
}

/// The mod list after carrying out `action`, with `added` as the entry an
/// append adds.
pub open spec fn entries_after(
    entries: Seq<GraphicsModEntry>,
    action: GraphicsModAction,
    added: GraphicsModEntry,
) -> Seq<GraphicsModEntry> {
    match action {
        GraphicsModAction::Unchanged => entries,
        GraphicsModAction::Enable(i) => entries.update(
            i as int,
            GraphicsModEntry { enabled: Some(true), ..entries[i as int] },
        ),
        GraphicsModAction::Append => entries.push(added),
    }
}

proof fn lemma_bundled_entry_at(entries: Seq<GraphicsModEntry>, i: int)
    requires
        0 <= i < entries.len(),
        is_bundled_entry(entries[i]),
        forall|j: int| 0 <= j < i ==> !is_bundled_entry(#[trigger] entries[j]),
    ensures
        bundled_entry(entries) == Some(i),
{
    let k = choose|k: int|
        0 <= k < entries.len() && is_bundled_entry(entries[k]) && forall|j: int|
            0 <= j < k ==> !is_bundled_entry(entries[j]);
    if k < i {
        assert(!is_bundled_entry(entries[k]));
    }
    if i < k {
        assert(!is_bundled_entry(entries[i]));
    }
}

proof fn minimal_bundled(entries: Seq<GraphicsModEntry>, j: int) -> (k: int)
    requires
        0 <= j < entries.len(),
        is_bundled_entry(entries[j]),
    ensures
        0 <= k <= j,
        is_bundled_entry(entries[k]),
        forall|i: int| 0 <= i < k ==> !is_bundled_entry(#[trigger] entries[i]),
    decreases j,
{
    if exists|i: int| 0 <= i < j && is_bundled_entry(entries[i]) {
        let i = choose|i: int| 0 <= i < j && is_bundled_entry(entries[i]);
        minimal_bundled(entries, i)
    } else {
        j
    }
}

/// Carrying out what a profile needs leaves it needing nothing more: a
/// second preparation changes nothing.
pub proof fn preparing_the_profile_settles(entries: Seq<GraphicsModEntry>, added: GraphicsModEntry)
    requires
        entries.len() <= usize::MAX,
        is_bundled_entry(added),
        added.enabled == Some(true),
    ensures
        mod_action(entries_after(entries, mod_action(entries), added)) == GraphicsModAction::Unchanged,
{
    if exists|j: int| 0 <= j < entries.len() && is_bundled_entry(entries[j]) {
        let j = choose|j: int| 0 <= j < entries.len() && is_bundled_entry(entries[j]);
        let i = minimal_bundled(entries, j);
        lemma_bundled_entry_at(entries, i);
        if entries[i].enabled != Some(true) {
            let changed = GraphicsModEntry { enabled: Some(true), ..entries[i] };
            let after = entries.update(i, changed);
            assert(entries_after(entries, mod_action(entries), added) == after);
            assert forall|k: int| 0 <= k < i implies !is_bundled_entry(#[trigger] after[k]) by {
                assert(after[k] == entries[k]);
            }
            lemma_bundled_entry_at(after, i);
        }
    } else {
        let after = entries.push(added);
        assert forall|k: int| 0 <= k < entries.len() implies !is_bundled_entry(#[trigger] after[k]) by {
            assert(after[k] == entries[k]);
        }
        lemma_bundled_entry_at(after, entries.len() as int);
    }
}

/// A number of a JSON document, kept as the parser read it.
#[verifier::external_type_specification]
#[verifier::external_body]
pub struct ExJsonNumber(serde_json::Number);

/// A JSON document as the profile rule edits it: an object's members in
/// order, numbers as read.
#[derive(Debug)]
pub enum JsonValue {
    Null,
    Bool(bool),
    Number(serde_json::Number),
    Text(String),
    Array(Vec<JsonValue>),
    Object(Vec<(String, JsonValue)>),
}

/// A JSON document as a value: strings as characters.
pub enum JsonView {
    Null,
    Bool(bool),
    Number(serde_json::Number),
    Text(Seq<char>),
    Array(Seq<JsonView>),
    Object(Seq<(Seq<char>, JsonView)>),
}

pub open spec fn json_view(v: JsonValue) -> JsonView
    decreases v, 1int,
{
    match v {
        JsonValue::Null => JsonView::Null,
        JsonValue::Bool(b) => JsonView::Bool(b),
        JsonValue::Number(n) => JsonView::Number(n),
        JsonValue::Text(s) => JsonView::Text(s@),
        JsonValue::Array(items) => JsonView::Array(items_view(items@, 0)),
        JsonValue::Object(members) => JsonView::Object(members_view(members@, 0)),
    }
}

pub open spec fn items_view(cs: Seq<JsonValue>, i: int) -> Seq<JsonView>
    decreases cs, cs.len() - i,
{
    if 0 <= i < cs.len() {
        seq![json_view(cs[i])] + items_view(cs, i + 1)
    } else {
        Seq::empty()
    }
}

pub open spec fn members_view(fs: Seq<(String, JsonValue)>, i: int) -> Seq<(Seq<char>, JsonView)>
    decreases fs, fs.len() - i,
{
    if 0 <= i < fs.len() {
        seq![(fs[i].0@, json_view(fs[i].1))] + members_view(fs, i + 1)
    } else {
        Seq::empty()
    }
}

proof fn lemma_items_view(cs: Seq<JsonValue>, i: int)
    requires
        0 <= i <= cs.len(),
    ensures
        items_view(cs, i).len() == cs.len() - i,
        forall|k: int| 0 <= k < cs.len() - i ==> #[trigger] items_view(cs, i)[k] == json_view(cs[i + k]),
    decreases cs.len() - i,
{
    if i < cs.len() {
        lemma_items_view(cs, i + 1);
        assert forall|k: int| 0 <= k < cs.len() - i implies #[trigger] items_view(cs, i)[k] == json_view(cs[i + k]) by {
            if k > 0 {
                assert(items_view(cs, i)[k] == items_view(cs, i + 1)[k - 1]);
            }
        }
    }
}

proof fn lemma_members_view(fs: Seq<(String, JsonValue)>, i: int)
    requires
        0 <= i <= fs.len(),
    ensures
        members_view(fs, i).len() == fs.len() - i,
        forall|k: int|
            0 <= k < fs.len() - i ==> #[trigger] members_view(fs, i)[k] == (fs[i + k].0@, json_view(fs[i + k].1)),
    decreases fs.len() - i,
{
    if i < fs.len() {
        lemma_members_view(fs, i + 1);
        assert forall|k: int| 0 <= k < fs.len() - i implies #[trigger] members_view(fs, i)[k] == (
            fs[i + k].0@,
            json_view(fs[i + k].1),
        ) by {
            if k > 0 {
                assert(members_view(fs, i)[k] == members_view(fs, i + 1)[k - 1]);
            }
        }
    }
}

/// The position of an object's first member named `key`.
#[verifier::opaque]
pub open spec fn member_at(fs: Seq<(Seq<char>, JsonView)>, key: Seq<char>) -> Option<int> {
    if exists|i: int| 0 <= i < fs.len() && fs[i].0 == key {
        Some(choose|i: int| 0 <= i < fs.len() && fs[i].0 == key && forall|j: int| 0 <= j < i ==> fs[j].0 != key)
    } else {
        None
    }
}

proof fn lemma_member_at(fs: Seq<(Seq<char>, JsonView)>, key: Seq<char>, i: int)
    requires
        0 <= i < fs.len(),
        fs[i].0 == key,
        forall|j: int| 0 <= j < i ==> fs[j].0 != key,
    ensures
        member_at(fs, key) == Some(i),
{
    reveal(member_at);
    let k = choose|k: int| 0 <= k < fs.len() && fs[k].0 == key && forall|j: int| 0 <= j < k ==> fs[j].0 != key;
    if k < i {
        assert(fs[k].0 != key);
    }
    if i < k {
        assert(fs[i].0 != key);
    }
}

/// An object member's value, if the value is there.
pub open spec fn member(v: JsonView, key: Seq<char>) -> Option<JsonView> {
    match v {
        JsonView::Object(fs) => match member_at(fs, key) {
            Some(p) => Some(fs[p].1),
            None => None,
        },
        _ => None,
    }
}

/// A member's string, when it is one.
pub open spec fn text_member(v: JsonView, key: Seq<char>) -> Option<Seq<char>> {
    match member(v, key) {
        Some(JsonView::Text(s)) => Some(s),
        _ => None,
    }
}

/// A member's boolean, when it is one.
pub open spec fn bool_member(v: JsonView, key: Seq<char>) -> Option<bool> {
    match member(v, key) {
        Some(JsonView::Bool(b)) => Some(b),
        _ => None,
    }
}

/// Whether a mods entry is the system entry of the bundled mod.
#[verifier::opaque]
pub open spec fn bundled_item(v: JsonView) -> bool {
    text_member(v, "source"@) == Some("system"@) && (text_member(v, "path"@) matches Some(p) && replace_char(
        p,
        '\\',
        '/',
    ) == sms_graphics_mod_path())
}

/// The position of the first bundled-mod entry.
pub open spec fn first_bundled_item(items: Seq<JsonView>) -> Option<int> {
    if exists|i: int| 0 <= i < items.len() && bundled_item(items[i]) {
        Some(choose|i: int| 0 <= i < items.len() && bundled_item(items[i]) && forall|j: int| 0 <= j < i ==> !bundled_item(items[j]))
    } else {
        None
    }
}

/// What a mods list needs: nothing when its first bundled-mod entry is
/// enabled, enabling it when it is not, or a new entry when there is none.
pub open spec fn item_action(items: Seq<JsonView>) -> GraphicsModAction {
    match first_bundled_item(items) {
        Some(i) => if bool_member(items[i], "enabled"@) == Some(true) {
            GraphicsModAction::Unchanged
        } else {
            GraphicsModAction::Enable(i as usize)
        },
        None => GraphicsModAction::Append,
    }
}

/// An object's members with `key` set to `v`: in place where the key is,
/// else at the end.
pub open spec fn with_member(fs: Seq<(Seq<char>, JsonView)>, key: Seq<char>, v: JsonView) -> Seq<(Seq<char>, JsonView)> {
    match member_at(fs, key) {
        Some(p) => fs.update(p, (fs[p].0, v)),
        None => fs.push((key, v)),
    }
}

/// The entry a profile without the bundled mod gains, weighted `weight`.
pub open spec fn bundled_entry_view(weight: serde_json::Number) -> JsonView {
    JsonView::Object(
        seq![
            ("source"@, JsonView::Text("system"@)),
            ("path"@, JsonView::Text(sms_graphics_mod_path())),
            ("enabled"@, JsonView::Bool(true)),
            ("weight"@, JsonView::Number(weight)),
        ],
    )
}

/// A mods entry with `enabled` set to true, when it is an object.
pub open spec fn enabled_entry(e: JsonView) -> JsonView {
    match e {
        JsonView::Object(efs) => JsonView::Object(with_member(efs, "enabled"@, JsonView::Bool(true))),
        other => other,
    }
}

/// The mods list after enabling the bundled mod: the bundled entry enabled,
/// or a new entry at the end; every other entry stays.
pub open spec fn items_after(items: Seq<JsonView>, weight: serde_json::Number) -> Seq<JsonView> {
    match item_action(items) {
        GraphicsModAction::Unchanged => items,
        GraphicsModAction::Enable(i) => items.update(i as int, enabled_entry(items[i as int])),
        GraphicsModAction::Append => items.push(bundled_entry_view(weight)),
    }
}

/// The profile after enabling the bundled mod: its `mods` list as
/// `items_after` makes it (a new list holding the new entry when `mods` is
/// missing); every other member of the profile stays.
pub open spec fn profile_after(root: JsonView, weight: serde_json::Number) -> JsonView {
    match root {
        JsonView::Object(fs) => match member_at(fs, "mods"@) {
            Some(p) => match fs[p].1 {
                JsonView::Array(items) => JsonView::Object(
                    fs.update(p, (fs[p].0, JsonView::Array(items_after(items, weight)))),
                ),
                _ => root,
            },
            None => JsonView::Object(fs.push(("mods"@, JsonView::Array(seq![bundled_entry_view(weight)])))),
        },
        _ => root,
    }
}

/// Why a profile cannot be prepared, if it cannot.
pub open spec fn profile_problem(root: JsonView, display: Seq<char>) -> Option<Seq<char>> {
    match root {
        JsonView::Object(fs) => match member_at(fs, "mods"@) {
            Some(p) => match fs[p].1 {
                JsonView::Array(_) => None,
                _ => Some("Dolphin graphics-mod profile '"@ + display + "' has a non-array mods field"@),
            },
            None => None,
        },
        _ => Some("Dolphin graphics-mod profile '"@ + display + "' is not a JSON object"@),
    }
}

/// Whether preparing the profile changes it.
pub open spec fn profile_changes(root: JsonView) -> bool {
    match root {
        JsonView::Object(fs) => match member_at(fs, "mods"@) {
            Some(p) => match fs[p].1 {
                JsonView::Array(items) => item_action(items) != GraphicsModAction::Unchanged,
                _ => false,
            },
            None => true,
        },
        _ => false,
    }
}

fn member_index(fs: &Vec<(String, JsonValue)>, key: &str) -> (r: Option<usize>)
    ensures
        members_view(fs@, 0).len() == fs@.len(),
        match r {
            Some(i) => member_at(members_view(fs@, 0), key@) == Some(i as int) && i < fs@.len(),
            None => member_at(members_view(fs@, 0), key@) is None,
        },
{
    proof {
        lemma_members_view(fs@, 0);
    }
    let ghost view = members_view(fs@, 0);
    let mut i: usize = 0;
    while i < fs.len()
        invariant
            i <= fs@.len(),
            view == members_view(fs@, 0),
            view.len() == fs@.len(),
            forall|k: int| 0 <= k < fs@.len() ==> #[trigger] view[k] == (fs@[k].0@, json_view(fs@[k].1)),
            forall|j: int| 0 <= j < i ==> view[j].0 != key@,
        decreases fs@.len() - i,
    {
        if crate::text::str_equal(fs[i].0.as_str(), key) {
            proof {
                lemma_member_at(view, key@, i as int);
            }
            return Some(i);
        }
        i += 1;
    }
    proof {
        reveal(member_at);
    }
    None
}

fn member_of<'a>(v: &'a JsonValue, key: &str) -> (r: Option<&'a JsonValue>)
    ensures
        match r {
            Some(m) => member(json_view(*v), key@) == Some(json_view(*m)),
            None => member(json_view(*v), key@) is None,
        },
{
    match v {
        JsonValue::Object(fs) => {
            proof {
                lemma_members_view(fs@, 0);
            }
            match member_index(fs, key) {
                Some(p) => Some(&fs[p].1),
                None => None,
            }
        },
        _ => None,
    }
}

fn item_is_bundled(v: &JsonValue) -> (b: bool)
    ensures
        b == bundled_item(json_view(*v)),
{
    reveal(bundled_item);
    let system = match member_of(v, "source") {
        Some(JsonValue::Text(s)) => crate::text::str_equal(s.as_str(), "system"),
        _ => false,
    };
    if !system {
        return false;
    }
    match member_of(v, "path") {
        Some(JsonValue::Text(p)) => {
            let normalised = replace_char_vec(&chars_of(p.as_str()), '\\', '/');
            seq_equal(&normalised, &chars_of("Super Mario Sunshine/metadata.json"))
        },
        _ => false,
    }
}

proof fn lemma_first_bundled_item(items: Seq<JsonView>, i: int)
    requires
        0 <= i < items.len(),
        bundled_item(items[i]),
        forall|j: int| 0 <= j < i ==> !bundled_item(#[trigger] items[j]),
    ensures
        first_bundled_item(items) == Some(i),
{
    let k = choose|k: int| 0 <= k < items.len() && bundled_item(items[k]) && forall|j: int| 0 <= j < k ==> !bundled_item(items[j]);
    if k < i {
        assert(!bundled_item(items[k]));
    }
    if i < k {
        assert(!bundled_item(items[i]));
    }
}

proof fn lemma_first_bundled_exists(items: Seq<JsonView>, j: int)
    requires
        0 <= j < items.len(),
        bundled_item(items[j]),
    ensures
        first_bundled_item(items) matches Some(k) && 0 <= k < items.len() && bundled_item(items[k]) && forall|m: int|
            0 <= m < k ==> !bundled_item(#[trigger] items[m]),
    decreases j,
{
    if exists|i: int| 0 <= i < j && bundled_item(items[i]) {
        let i = choose|i: int| 0 <= i < j && bundled_item(items[i]);
        lemma_first_bundled_exists(items, i);
    } else {
        lemma_first_bundled_item(items, j);
    }
}

fn item_enabled(v: &JsonValue) -> (b: bool)
    ensures
        b == (bool_member(json_view(*v), "enabled"@) == Some(true)),
{
    match member_of(v, "enabled") {
        Some(JsonValue::Bool(b)) => *b,
        _ => false,
    }
}

#[verifier::spinoff_prover]
fn items_action(items: &Vec<JsonValue>) -> (a: GraphicsModAction)
    ensures
        items_view(items@, 0).len() == items@.len(),
        a == item_action(items_view(items@, 0)),
{
    proof {
        lemma_items_view(items@, 0);
    }
    let ghost view = items_view(items@, 0);
    let mut i: usize = 0;
    while i < items.len()
        invariant
            i <= items@.len(),
            view == items_view(items@, 0),
            view.len() == items@.len(),
            forall|k: int| 0 <= k < items@.len() ==> #[trigger] view[k] == json_view(items@[k]),
            forall|j: int| 0 <= j < i ==> !bundled_item(#[trigger] view[j]),
        decreases items@.len() - i,
    {
        if item_is_bundled(&items[i]) {
            proof {
                lemma_first_bundled_item(view, i as int);
            }
            if item_enabled(&items[i]) {
                return GraphicsModAction::Unchanged;
            }
            return GraphicsModAction::Enable(i);
        }
        i += 1;
    }
    GraphicsModAction::Append
}

proof fn lemma_members_update(fs: Seq<(String, JsonValue)>, p: int, e: (String, JsonValue))
    requires
        0 <= p < fs.len(),
    ensures
        members_view(fs.update(p, e), 0) == members_view(fs, 0).update(p, (e.0@, json_view(e.1))),
{
    lemma_members_view(fs, 0);
    lemma_members_view(fs.update(p, e), 0);
    assert(members_view(fs.update(p, e), 0) =~= members_view(fs, 0).update(p, (e.0@, json_view(e.1))));
}

proof fn lemma_members_push(fs: Seq<(String, JsonValue)>, e: (String, JsonValue))
    ensures
        members_view(fs.push(e), 0) == members_view(fs, 0).push((e.0@, json_view(e.1))),
{
    lemma_members_view(fs, 0);
    lemma_members_view(fs.push(e), 0);
    assert(members_view(fs.push(e), 0) =~= members_view(fs, 0).push((e.0@, json_view(e.1))));
}

proof fn lemma_items_update(cs: Seq<JsonValue>, i: int, e: JsonValue)
    requires
        0 <= i < cs.len(),
    ensures
        items_view(cs.update(i, e), 0) == items_view(cs, 0).update(i, json_view(e)),
{
    lemma_items_view(cs, 0);
    lemma_items_view(cs.update(i, e), 0);
    assert(items_view(cs.update(i, e), 0) =~= items_view(cs, 0).update(i, json_view(e)));
}

proof fn lemma_items_push(cs: Seq<JsonValue>, e: JsonValue)
    ensures
        items_view(cs.push(e), 0) == items_view(cs, 0).push(json_view(e)),
{
    lemma_items_view(cs, 0);
    lemma_items_view(cs.push(e), 0);
    assert(items_view(cs.push(e), 0) =~= items_view(cs, 0).push(json_view(e)));
}

/// An object's members with `key` set to `v`.
fn set_member(fs: Vec<(String, JsonValue)>, key: &str, v: JsonValue) -> (r: Vec<(String, JsonValue)>)
    ensures
        members_view(r@, 0) == with_member(members_view(fs@, 0), key@, json_view(v)),
{
    let mut fs = fs;
    match member_index(&fs, key) {
        Some(q) => {
            let ghost before = fs@;
            let (k, _) = fs.remove(q);
            fs.insert(q, (k, v));
            proof {
                assert(fs@ =~= before.update(q as int, (before[q as int].0, v)));
                lemma_members_update(before, q as int, (before[q as int].0, v));
                lemma_members_view(before, 0);
            }
            fs
        },
        None => {
            let ghost before = fs@;
            let name = key.to_owned();
            let ghost pair = (name, v);
            fs.push((name, v));
            proof {
                lemma_members_push(before, pair);
            }
            fs
        },
    }
}

/// The entry a profile without the bundled mod gains.
fn new_bundled_entry(weight: serde_json::Number) -> (e: JsonValue)
    ensures
        json_view(e) == bundled_entry_view(weight),
{
    let mut fs: Vec<(String, JsonValue)> = Vec::new();
    fs.push(("source".to_owned(), JsonValue::Text("system".to_owned())));
    fs.push(("path".to_owned(), JsonValue::Text("Super Mario Sunshine/metadata.json".to_owned())));
    fs.push(("enabled".to_owned(), JsonValue::Bool(true)));
    fs.push(("weight".to_owned(), JsonValue::Number(weight)));
    proof {
        lemma_members_view(fs@, 0);
        assert(members_view(fs@, 0) =~= seq![
            ("source"@, JsonView::Text("system"@)),
            ("path"@, JsonView::Text(sms_graphics_mod_path())),
            ("enabled"@, JsonView::Bool(true)),
            ("weight"@, JsonView::Number(weight)),
        ]);
    }
    JsonValue::Object(fs)
}

fn profile_error(display: &str, tail: &str) -> (m: String)
    ensures
        m@ == "Dolphin graphics-mod profile '"@ + display@ + tail@,
{
    let mut m = chars_of("Dolphin graphics-mod profile '");
    let mut d = chars_of(display);
    m.append(&mut d);
    let mut t = chars_of(tail);
    m.append(&mut t);
    string_of(&m)
}

fn enable_item(items: Vec<JsonValue>, i: usize) -> (r: Vec<JsonValue>)
    requires
        i < items@.len(),
    ensures
        items_view(r@, 0) == items_view(items@, 0).update(i as int, enabled_entry(items_view(items@, 0)[i as int])),
{
    let mut items = items;
    let ghost items0 = items@;
    proof {
        lemma_items_view(items0, 0);
    }
    let entry = items.remove(i);
    let edited = match entry {
        JsonValue::Object(efs) => JsonValue::Object(set_member(efs, "enabled", JsonValue::Bool(true))),
        other => other,
    };
    items.insert(i, edited);
    proof {
        assert(items@ =~= items0.update(i as int, edited));
        lemma_items_update(items0, i as int, edited);
    }
    items
}

fn append_item(items: Vec<JsonValue>, weight: serde_json::Number) -> (r: Vec<JsonValue>)
    ensures
        items_view(r@, 0) == items_view(items@, 0).push(bundled_entry_view(weight)),
{
    let mut items = items;
    let ghost items0 = items@;
    let entry = new_bundled_entry(weight);
    items.push(entry);
    proof {
        lemma_items_push(items0, entry);
    }
    items
}

#[verifier::spinoff_prover]
fn edit_items(items: Vec<JsonValue>, weight: serde_json::Number) -> (r: (Vec<JsonValue>, bool))
    ensures
        items_view(r.0@, 0) == items_after(items_view(items@, 0), weight),
        r.1 == (item_action(items_view(items@, 0)) != GraphicsModAction::Unchanged),
{
    let action = items_action(&items);
    match action {
        GraphicsModAction::Unchanged => (items, false),
        GraphicsModAction::Enable(i) => {
            proof {
                let view = items_view(items@, 0);
                let j = choose|j: int| 0 <= j < view.len() && bundled_item(view[j]);
                lemma_first_bundled_exists(view, j);
            }
            (enable_item(items, i), true)
        },
        GraphicsModAction::Append => (append_item(items, weight), true),
    }
}

/// The profile's members after enabling the bundled mod, or the error.
pub open spec fn members_after(
    fs: Seq<(Seq<char>, JsonView)>,
    weight: serde_json::Number,
) -> Seq<(Seq<char>, JsonView)> {
    match profile_after(JsonView::Object(fs), weight) {
        JsonView::Object(after) => after,
        _ => fs,
    }
}

#[verifier::spinoff_prover]
#[verifier::rlimit(80)]
fn edit_members(fs: Vec<(String, JsonValue)>, weight: serde_json::Number, display: &str) -> (r: Result<
    (Vec<(String, JsonValue)>, bool),
    String,
>)
    ensures
        match profile_problem(JsonView::Object(members_view(fs@, 0)), display@) {
            Some(m) => r matches Err(e) && e@ == m,
            None => r matches Ok(done) && members_view(done.0@, 0) == members_after(members_view(fs@, 0), weight)
                && done.1 == profile_changes(JsonView::Object(members_view(fs@, 0))),
        },
{
    let mut fs = fs;
    let ghost fs0 = fs@;
    match member_index(&fs, "mods") {
        None => {
            let entry = new_bundled_entry(weight);
            let mut items: Vec<JsonValue> = Vec::new();
            items.push(entry);
            proof {
                lemma_items_view(items@, 0);
                assert(items_view(items@, 0) =~= seq![bundled_entry_view(weight)]);
            }
            let mods = JsonValue::Array(items);
            let name = "mods".to_owned();
            let ghost pair = (name, mods);
            fs.push((name, mods));
            proof {
                lemma_members_push(fs0, pair);
            }
            Ok((fs, true))
        },
        Some(p) => {
            proof {
                lemma_members_view(fs0, 0);
            }
            let (key, value) = fs.remove(p);
            let items = match value {
                JsonValue::Array(items) => items,
                _ => return Err(profile_error(display, "' has a non-array mods field")),
            };
            let (items, changed) = edit_items(items, weight);
            let mods = JsonValue::Array(items);
            fs.insert(p, (key, mods));
            proof {
                assert(fs@ =~= fs0.update(p as int, (fs0[p as int].0, mods)));
                lemma_members_update(fs0, p as int, (fs0[p as int].0, mods));
            }
            Ok((fs, changed))
        },
    }
}

/// Enables the bundled Native Resolution Goop mod in a graphics-mod
/// profile, giving the profile back and whether it changed: the bundled
/// entry's `enabled` becomes true, or an entry weighted `weight` is added at
/// the end of `mods` (made when missing). Every other member of the profile
/// and of every entry stays as it was. `display` is how the profile's path
/// shows.
pub fn enable_native_goop_mod(root: JsonValue, weight: serde_json::Number, display: &str) -> (r: Result<
    (JsonValue, bool),
    String,
>)
    ensures
        match profile_problem(json_view(root), display@) {
            Some(m) => r matches Err(e) && e@ == m,
            None => r matches Ok(done) && json_view(done.0) == profile_after(json_view(root), weight) && done.1
                == profile_changes(json_view(root)),
        },
{
    match root {
        JsonValue::Object(fs) => match edit_members(fs, weight, display) {
            Ok((after, changed)) => Ok((JsonValue::Object(after), changed)),
            Err(e) => Err(e),
        },
        _ => Err(profile_error(display, "' is not a JSON object")),
    }
}

proof fn lemma_member_at_some(fs: Seq<(Seq<char>, JsonView)>, key: Seq<char>, j: int)
    requires
        0 <= j < fs.len(),
        fs[j].0 == key,
    ensures
        member_at(fs, key) matches Some(k) && 0 <= k <= j && fs[k].0 == key && forall|i: int| 0 <= i < k ==> fs[i].0 != key,
    decreases j,
{
    if exists|i: int| 0 <= i < j && fs[i].0 == key {
        let i = choose|i: int| 0 <= i < j && fs[i].0 == key;
        lemma_member_at_some(fs, key, i);
    } else {
        lemma_member_at(fs, key, j);
    }
}

proof fn lemma_member_at_facts(fs: Seq<(Seq<char>, JsonView)>, key: Seq<char>)
    ensures
        match member_at(fs, key) {
            Some(k) => 0 <= k < fs.len() && fs[k].0 == key && forall|j: int| 0 <= j < k ==> fs[j].0 != key,
            None => forall|i: int| 0 <= i < fs.len() ==> fs[i].0 != key,
        },
{
    if exists|i: int| 0 <= i < fs.len() && fs[i].0 == key {
        let i = choose|i: int| 0 <= i < fs.len() && fs[i].0 == key;
        lemma_member_at_some(fs, key, i);
    } else {
        reveal(member_at);
    }
}

proof fn lemma_member_at_same_keys(a: Seq<(Seq<char>, JsonView)>, b: Seq<(Seq<char>, JsonView)>, key: Seq<char>)
    requires
        a.len() == b.len(),
        forall|i: int| 0 <= i < a.len() ==> (#[trigger] a[i]).0 == b[i].0,
    ensures
        member_at(a, key) == member_at(b, key),
{
    reveal(member_at);
    if exists|i: int| 0 <= i < a.len() && a[i].0 == key {
        let i = choose|i: int| 0 <= i < a.len() && a[i].0 == key;
        lemma_member_at_some(a, key, i);
        let k = member_at(a, key)->0;
        assert forall|j: int| 0 <= j < k implies b[j].0 != key by {
            assert(a[j].0 == b[j].0);
        }
        assert(b[k].0 == a[k].0);
        lemma_member_at(b, key, k);
    } else {
        assert forall|i: int| 0 <= i < b.len() implies b[i].0 != key by {
            assert(a[i].0 == b[i].0);
        }
    }
}

proof fn lemma_member_at_push(fs: Seq<(Seq<char>, JsonView)>, e: (Seq<char>, JsonView), key: Seq<char>)
    ensures
        member_at(fs.push(e), key) == match member_at(fs, key) {
            Some(k) => Some(k),
            None => if e.0 == key {
                Some(fs.len() as int)
            } else {
                None
            },
        },
{
    reveal(member_at);
    let after = fs.push(e);
    if exists|i: int| 0 <= i < fs.len() && fs[i].0 == key {
        let i = choose|i: int| 0 <= i < fs.len() && fs[i].0 == key;
        lemma_member_at_some(fs, key, i);
        let k = member_at(fs, key)->0;
        assert forall|j: int| 0 <= j < k implies after[j].0 != key by {
            assert(after[j] == fs[j]);
        }
        lemma_member_at(after, key, k);
    } else if e.0 == key {
        assert forall|j: int| 0 <= j < fs.len() implies after[j].0 != key by {
            assert(after[j] == fs[j]);
        }
        lemma_member_at(after, key, fs.len() as int);
    } else {
        assert forall|j: int| 0 <= j < after.len() implies after[j].0 != key by {
            if j < fs.len() {
                assert(after[j] == fs[j]);
            }
        }
    }
}

/// Setting one member keeps every other member; the member set reads back.
#[verifier::spinoff_prover]
proof fn lemma_with_member(fs: Seq<(Seq<char>, JsonView)>, key: Seq<char>, v: JsonView, other: Seq<char>)
    ensures
        member(JsonView::Object(with_member(fs, key, v)), key) == Some(v),
        other != key ==> member(JsonView::Object(with_member(fs, key, v)), other) == member(JsonView::Object(fs), other),
{
    lemma_member_at_facts(fs, key);
    lemma_member_at_facts(fs, other);
    match member_at(fs, key) {
        Some(p) => {
            let after = fs.update(p, (fs[p].0, v));
            lemma_member_at_same_keys(after, fs, key);
            lemma_member_at_same_keys(after, fs, other);
        },
        None => {
            lemma_member_at_push(fs, (key, v), key);
            lemma_member_at_push(fs, (key, v), other);
        },
    }
}

#[verifier::spinoff_prover]
proof fn lemma_enabled_entry(e: JsonView)
    requires
        bundled_item(e),
    ensures
        bundled_item(enabled_entry(e)),
        bool_member(enabled_entry(e), "enabled"@) == Some(true),
{
    reveal(bundled_item);
    let efs = e->Object_0;
    lemma_with_member(efs, "enabled"@, JsonView::Bool(true), "source"@);
    lemma_with_member(efs, "enabled"@, JsonView::Bool(true), "path"@);
    assert("source"@ != "enabled"@) by {
        reveal_strlit("source");
        reveal_strlit("enabled");
        assert("source"@.len() != "enabled"@.len());
    }
    assert("path"@ != "enabled"@) by {
        reveal_strlit("path");
        reveal_strlit("enabled");
        assert("path"@.len() != "enabled"@.len());
    }
}

#[verifier::spinoff_prover]
proof fn lemma_new_entry_is_enabled(weight: serde_json::Number)
    ensures
        bundled_item(bundled_entry_view(weight)),
        bool_member(bundled_entry_view(weight), "enabled"@) == Some(true),
{
    reveal(bundled_item);
    reveal_strlit("source");
    reveal_strlit("path");
    reveal_strlit("enabled");
    reveal_strlit("weight");
    reveal_strlit("system");
    reveal_strlit("Super Mario Sunshine/metadata.json");
    let fs = seq![
        ("source"@, JsonView::Text("system"@)),
        ("path"@, JsonView::Text(sms_graphics_mod_path())),
        ("enabled"@, JsonView::Bool(true)),
        ("weight"@, JsonView::Number(weight)),
    ];
    assert(fs[0].0 != "path"@ && fs[0].0 != "enabled"@ && fs[1].0 != "enabled"@) by {
        assert(fs[0].0.len() != "path"@.len());
        assert(fs[0].0.len() != "enabled"@.len());
        assert(fs[1].0.len() != "enabled"@.len());
    }
    lemma_member_at(fs, "source"@, 0);
    lemma_member_at(fs, "path"@, 1);
    lemma_member_at(fs, "enabled"@, 2);
    assert(replace_char(sms_graphics_mod_path(), '\\', '/') =~= sms_graphics_mod_path());
}

proof fn lemma_action_enable(items: Seq<JsonView>, i: usize)
    requires
        items.len() <= usize::MAX,
        item_action(items) == GraphicsModAction::Enable(i),
    ensures
        0 <= i < items.len(),
        bundled_item(items[i as int]),
        forall|k: int| 0 <= k < i ==> !bundled_item(#[trigger] items[k]),
        bool_member(items[i as int], "enabled"@) != Some(true),
{
    let j = choose|j: int| 0 <= j < items.len() && bundled_item(items[j]);
    lemma_first_bundled_exists(items, j);
}

#[verifier::spinoff_prover]
proof fn lemma_settle_enable(items: Seq<JsonView>, i: usize)
    requires
        items.len() <= usize::MAX,
        item_action(items) == GraphicsModAction::Enable(i),
    ensures
        item_action(items.update(i as int, enabled_entry(items[i as int]))) == GraphicsModAction::Unchanged,
{
    lemma_action_enable(items, i);
    let after = items.update(i as int, enabled_entry(items[i as int]));
    lemma_enabled_entry(items[i as int]);
    assert forall|k: int| 0 <= k < i implies !bundled_item(#[trigger] after[k]) by {
        assert(after[k] == items[k]);
    }
    lemma_first_bundled_item(after, i as int);
}

#[verifier::spinoff_prover]
proof fn lemma_settle_append(items: Seq<JsonView>, weight: serde_json::Number)
    requires
        item_action(items) == GraphicsModAction::Append,
    ensures
        item_action(items.push(bundled_entry_view(weight))) == GraphicsModAction::Unchanged,
{
    let after = items.push(bundled_entry_view(weight));
    lemma_new_entry_is_enabled(weight);
    assert forall|k: int| 0 <= k < items.len() implies !bundled_item(#[trigger] after[k]) by {
        assert(after[k] == items[k]);
    }
    lemma_first_bundled_item(after, items.len() as int);
}

proof fn lemma_items_after_settle(items: Seq<JsonView>, weight: serde_json::Number)
    requires
        items.len() <= usize::MAX,
    ensures
        item_action(items_after(items, weight)) == GraphicsModAction::Unchanged,
{
    match item_action(items) {
        GraphicsModAction::Unchanged => {},
        GraphicsModAction::Enable(i) => lemma_settle_enable(items, i),
        GraphicsModAction::Append => lemma_settle_append(items, weight),
    }
}

/// Preparing a profile keeps the rest of it and settles it. Every member
/// but `mods` stays; within `mods` every entry but the bundled mod's stays,
/// and the bundled entry keeps every member but `enabled`; preparing the
/// prepared profile again changes nothing.
#[verifier::spinoff_prover]
pub proof fn preparing_keeps_the_profile_and_settles(
    fs: Seq<(Seq<char>, JsonView)>,
    weight: serde_json::Number,
    key: Seq<char>,
)
    requires
        profile_problem(JsonView::Object(fs), ""@) is None,
        member(JsonView::Object(fs), "mods"@) matches Some(JsonView::Array(items)) ==> items.len() <= usize::MAX,
    ensures
        key != "mods"@ ==> member(profile_after(JsonView::Object(fs), weight), key) == member(
            JsonView::Object(fs),
            key,
        ),
        member(JsonView::Object(fs), "mods"@) matches Some(JsonView::Array(items)) ==> (
        item_action(items) matches GraphicsModAction::Enable(i) ==> (forall|j: int|
            0 <= j < items.len() && j != i ==> #[trigger] items_after(items, weight)[j] == items[j]) && (key
            != "enabled"@ ==> member(items_after(items, weight)[i as int], key) == member(items[i as int], key))),
        !profile_changes(profile_after(JsonView::Object(fs), weight)),
{
    let root = JsonView::Object(fs);
    match member_at(fs, "mods"@) {
        Some(p) => {
            lemma_member_at_facts(fs, "mods"@);
            lemma_member_at_facts(fs, key);
            let items = fs[p].1->Array_0;
            let after = fs.update(p, (fs[p].0, JsonView::Array(items_after(items, weight))));
            lemma_member_at_same_keys(after, fs, key);
            lemma_member_at_same_keys(after, fs, "mods"@);
            lemma_items_after_settle(items, weight);
            if let GraphicsModAction::Enable(i) = item_action(items) {
                let w = choose|w: int| 0 <= w < items.len() && bundled_item(items[w]);
                lemma_first_bundled_exists(items, w);
                reveal(bundled_item);
                let efs = items[i as int]->Object_0;
                lemma_with_member(efs, "enabled"@, JsonView::Bool(true), key);
            }
        },
        None => {
            let entry = bundled_entry_view(weight);
            lemma_member_at_push(fs, ("mods"@, JsonView::Array(seq![entry])), key);
            lemma_member_at_push(fs, ("mods"@, JsonView::Array(seq![entry])), "mods"@);
            lemma_member_at_facts(fs, key);
            lemma_items_after_settle(Seq::<JsonView>::empty(), weight);
            assert(items_after(Seq::<JsonView>::empty(), weight) =~= seq![entry]) by {
                assert(first_bundled_item(Seq::<JsonView>::empty()) is None);
            }
        },
    }
}

} // verus!
