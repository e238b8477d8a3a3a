use sms_editor::dolphin::{
    enable_native_goop_mod, JsonValue,
    check_sunshine_game, graphics_mod_action, managed_game_id, GraphicsModAction, GraphicsModEntry,
    GraphicsProfile,
};

fn entry(source: Option<&str>, path: Option<&str>, enabled: Option<bool>) -> GraphicsModEntry {
    GraphicsModEntry {
        source: source.map(str::to_string),
        path: path.map(str::to_string),
        enabled,
    }
}

#[test]
fn game_ids_come_from_the_first_six_header_bytes() {
    assert_eq!(managed_game_id(b"GMSE01retail header", "boot.bin"), Ok("GMSE01".to_string()));
    assert_eq!(
        managed_game_id(b"GMS", "sys/boot.bin"),
        Err("managed game header 'sys/boot.bin' is shorter than its six-byte game ID".to_string())
    );
    assert_eq!(
        managed_game_id(b"GMS\xffE1xyz", "b"),
        Err("managed game header 'b' contains a non-ASCII game ID".to_string())
    );
    assert!(managed_game_id(b"GMS-01", "b").is_err());
}

#[test]
fn rejects_a_non_sunshine_managed_game() {
    let id = managed_game_id(b"GZLE01retail header", "game/sys/boot.bin").unwrap();
    let error = check_sunshine_game(&id, "game").unwrap_err();
    assert!(error.contains("not a Super Mario Sunshine ID"));
    assert_eq!(error, "managed game 'game' has ID 'GZLE01', not a Super Mario Sunshine ID");
    assert_eq!(check_sunshine_game("GMSJ01", "game"), Ok(()));
}

#[test]
fn the_bundled_mod_entry_is_enabled_in_place() {
    let profile = GraphicsProfile::Mods(vec![
        entry(Some("user"), Some("My Mod/metadata.json"), Some(true)),
        entry(Some("system"), Some("Super Mario Sunshine\\metadata.json"), Some(false)),
        entry(Some("system"), Some("Super Mario Sunshine/metadata.json"), Some(true)),
    ]);
    assert_eq!(graphics_mod_action(&profile, "p.json"), Ok(GraphicsModAction::Enable(1)));
    let enabled = GraphicsProfile::Mods(vec![entry(
        Some("system"),
        Some("Super Mario Sunshine/metadata.json"),
        Some(true),
    )]);
    assert_eq!(graphics_mod_action(&enabled, "p.json"), Ok(GraphicsModAction::Unchanged));
    let missing_flag = GraphicsProfile::Mods(vec![entry(
        Some("system"),
        Some("Super Mario Sunshine/metadata.json"),
        None,
    )]);
    assert_eq!(graphics_mod_action(&missing_flag, "p.json"), Ok(GraphicsModAction::Enable(0)));
}

#[test]
fn a_profile_without_the_bundled_mod_gets_a_new_entry() {
    assert_eq!(graphics_mod_action(&GraphicsProfile::Mods(Vec::new()), "p"), Ok(GraphicsModAction::Append));
    let user_only = GraphicsProfile::Mods(vec![entry(
        Some("user"),
        Some("Super Mario Sunshine/metadata.json"),
        Some(true),
    )]);
    assert_eq!(graphics_mod_action(&user_only, "p"), Ok(GraphicsModAction::Append));
}

#[test]
fn malformed_profiles_are_refused() {
    assert_eq!(
        graphics_mod_action(&GraphicsProfile::NotObject, "GMSE01.json"),
        Err("Dolphin graphics-mod profile 'GMSE01.json' is not a JSON object".to_string())
    );
    assert_eq!(
        graphics_mod_action(&GraphicsProfile::ModsNotArray, "GMSE01.json"),
        Err("Dolphin graphics-mod profile 'GMSE01.json' has a non-array mods field".to_string())
    );
}

fn to_model(value: serde_json::Value) -> JsonValue {
    match value {
        serde_json::Value::Null => JsonValue::Null,
        serde_json::Value::Bool(b) => JsonValue::Bool(b),
        serde_json::Value::Number(n) => JsonValue::Number(n),
        serde_json::Value::String(s) => JsonValue::Text(s),
        serde_json::Value::Array(items) => JsonValue::Array(items.into_iter().map(to_model).collect()),
        serde_json::Value::Object(members) => {
            JsonValue::Object(members.into_iter().map(|(key, value)| (key, to_model(value))).collect())
        }
    }
}

fn from_model(value: JsonValue) -> serde_json::Value {
    match value {
        JsonValue::Null => serde_json::Value::Null,
        JsonValue::Bool(b) => serde_json::Value::Bool(b),
        JsonValue::Number(n) => serde_json::Value::Number(n),
        JsonValue::Text(s) => serde_json::Value::String(s),
        JsonValue::Array(items) => serde_json::Value::Array(items.into_iter().map(from_model).collect()),
        JsonValue::Object(members) => serde_json::Value::Object(
            members.into_iter().map(|(key, value)| (key, from_model(value))).collect(),
        ),
    }
}

#[test]
fn enables_native_goop_mod_without_replacing_other_profile_entries() {
    let profile: serde_json::Value = serde_json::from_slice(
        br#"{"mods":[{"source":"system","path":"Super Mario Sunshine/metadata.json","enabled":false,"groups":[{}]},{"source":"user","path":"My Mod/metadata.json","enabled":true}],"custom":7}"#,
    )
    .unwrap();
    let (first, first_changed) =
        enable_native_goop_mod(to_model(profile), serde_json::Number::from(0), "GMSE01.json").unwrap();
    let (second, second_changed) = enable_native_goop_mod(first, serde_json::Number::from(0), "GMSE01.json").unwrap();
    let saved = from_model(second);
    assert!(first_changed);
    assert!(!second_changed);
    assert_eq!(saved["custom"], 7);
    assert_eq!(saved["mods"][0]["enabled"], true);
    assert_eq!(saved["mods"][0]["groups"], serde_json::Value::Array(vec![serde_json::Value::Object(serde_json::Map::new())]));
    assert_eq!(saved["mods"][1]["path"], "My Mod/metadata.json");
}

#[test]
fn a_profile_without_mods_gains_the_bundled_entry() {
    let profile: serde_json::Value = serde_json::from_slice(br#"{"other":[1,2]}"#).unwrap();
    let (after, changed) = enable_native_goop_mod(to_model(profile), serde_json::Number::from(0), "p").unwrap();
    let saved = from_model(after);
    assert!(changed);
    assert_eq!(saved["other"][1], 2);
    assert_eq!(saved["mods"][0]["source"], "system");
    assert_eq!(saved["mods"][0]["path"], "Super Mario Sunshine/metadata.json");
    assert_eq!(saved["mods"][0]["enabled"], true);
    assert_eq!(saved["mods"][0]["weight"], 0);
    let not_object: serde_json::Value = serde_json::from_slice(b"[1]").unwrap();
    assert_eq!(
        enable_native_goop_mod(to_model(not_object), serde_json::Number::from(0), "p").unwrap_err(),
        "Dolphin graphics-mod profile 'p' is not a JSON object"
    );
    let bad_mods: serde_json::Value = serde_json::from_slice(br#"{"mods":{}}"#).unwrap();
    assert_eq!(
        enable_native_goop_mod(to_model(bad_mods), serde_json::Number::from(0), "p").unwrap_err(),
        "Dolphin graphics-mod profile 'p' has a non-array mods field"
    );
}
