use sms_editor::editor::{GoopAuthoring, GoopLayer, SceneObject, SmsEditorApp, StageDocument};
use sms_editor::goop::GoopHistory;
use sms_editor::goop_spawn::{
    active_pool_actor_factory, actor_layer_rebind_target, goop_enemy_unavailable_reason,
    goop_layer_spawn_bindings, manager_factory_matches_actor, pool_base_name,
    semantic_factory_name, RuntimeGoopLayerBinding,
};
use sms_editor::mask::MaskTextureSource;
use sms_editor::spawn_update::{goop_spawn_plan, SpawnStep};

fn actor(factory: &str, manager: &str) -> SceneObject {
    SceneObject {
        factory_name: factory.to_string(),
        class_name: None,
        raw_params: vec![("manager_name".to_string(), manager.to_string())],
        pool_only: false,
    }
}

fn app_with(document: Option<StageDocument>) -> SmsEditorApp {
    SmsEditorApp {
        document,
        goop_history: GoopHistory::new(),
        goop_stroke: None,
        selected_goop_layer: 0,
        document_dirty: false,
        log: Vec::new(),
        mask_wash_invert: false,
        mask_preview: None,
        mask_mask_source: MaskTextureSource::Generated,
        mask_generated: false,
        mask_mask_size: 0,
        mask_mask: Vec::new(),
        model_preview: None,
        material_library_baseline: None,
        material_library_assignments: Vec::new(),
    }
}

fn layer(style: Option<&str>) -> GoopLayer {
    GoopLayer { visible: true, editable: true, style_name: style.map(|s| s.to_string()), mask: vec![0; 4] }
}

#[test]
fn boss_manta_is_unavailable_until_its_runtime_pool_is_fixed() {
    assert!(goop_enemy_unavailable_reason(Some("BossManta"), None).is_some());
    assert!(goop_enemy_unavailable_reason(None, Some("BossMantaManager")).is_some());
    assert!(goop_enemy_unavailable_reason(Some("Telesa"), Some("TelesaManager")).is_none());
}

/// The stage-wide stain toggle must not repaint per-layer pool folders:
/// their look belongs to their layer.
#[test]
fn stage_wide_stain_actions_skip_layer_pool_folders() {
    assert!(SmsEditorApp::is_layer_pool_folder("hamukuri_l00"));
    assert!(SmsEditorApp::is_layer_pool_folder("namekuri_l15"));
    assert!(!SmsEditorApp::is_layer_pool_folder("hamukuri"));
    assert!(!SmsEditorApp::is_layer_pool_folder("hamukurianm"));
    assert!(!SmsEditorApp::is_layer_pool_folder("namekuri2"));
    assert!(SmsEditorApp::outside_layer_pool_folders("hamukuri/default.bmd"));
    assert!(SmsEditorApp::outside_layer_pool_folders("map/pollution/H_ma_rak.bti"));
    assert!(!SmsEditorApp::outside_layer_pool_folders("hamukuri_l01/default.bmd"));
}

#[test]
fn raw_archive_paths_are_normalised_before_the_pool_check() {
    assert!(!SmsEditorApp::edit_outside_layer_pool_folders(b"\\hamukuri_l01\\default.bmd"));
    assert!(!SmsEditorApp::edit_outside_layer_pool_folders(b"//hamukuri_l01/"));
    assert!(SmsEditorApp::edit_outside_layer_pool_folders(b"\\hamukuri\\default.bmd"));
    assert!(!SmsEditorApp::is_layer_pool_folder("_l01"));
}

#[test]
fn factory_names_lose_their_namespace() {
    assert_eq!(semantic_factory_name("Enemy::HamuKuri"), "HamuKuri");
    assert_eq!(semantic_factory_name("A::B::NameKuri"), "NameKuri");
    assert_eq!(semantic_factory_name("Telesa"), "Telesa");
}

#[test]
fn pool_suffixes_name_their_layer_in_two_digits() {
    assert_eq!(SmsEditorApp::layer_pool_suffix(0), "_L00");
    assert_eq!(SmsEditorApp::layer_pool_suffix(7), "_L07");
    assert_eq!(SmsEditorApp::layer_pool_suffix(15), "_L15");
}

#[test]
fn an_actor_reads_its_goop_layer_from_its_manager_name() {
    assert_eq!(
        SmsEditorApp::selected_actor_goop_layer(&actor("HamuKuri", "hamuManager_L03")),
        Some(3)
    );
    assert_eq!(
        SmsEditorApp::selected_actor_goop_layer(&actor("HamuKuri", "hamuManager_L1")),
        None
    );
    assert_eq!(SmsEditorApp::selected_actor_goop_layer(&actor("HamuKuri", "hamuManager")), None);
    let bare = SceneObject {
        factory_name: "Coin".to_string(),
        class_name: None,
        raw_params: Vec::new(),
        pool_only: false,
    };
    assert_eq!(SmsEditorApp::selected_actor_goop_layer(&bare), None);
}

#[test]
fn only_styled_layers_are_pool_choices() {
    let document = StageDocument {
        goop_authoring: Some(GoopAuthoring {
            layers: vec![layer(Some("Oil")), layer(None), layer(Some("Paint"))],
        }),
        objects: vec![actor("HamuKuri", "hamuManager")],
        tables: None, tables_untyped: false,
        resource_edits: Vec::new(),
    };
    let app = app_with(Some(document));
    let choices = app.goop_layer_choices();
    assert_eq!(choices, vec![(0, "Oil".to_string()), (2, "Paint".to_string())]);
    assert!(app.placed_actors_use_manager("hamuManager"));
    assert!(!app.placed_actors_use_manager("nameManager"));
    assert!(app_with(None).goop_layer_choices().is_empty());
}

#[test]
fn pool_names_lose_only_a_two_digit_layer_suffix() {
    assert_eq!(pool_base_name("hamuManager_L03"), "hamuManager");
    assert_eq!(pool_base_name("hamuManager_L3"), "hamuManager_L3");
    assert_eq!(pool_base_name("hamuManager_L03_L12"), "hamuManager_L03");
    assert_eq!(pool_base_name("hamuManager_L0x"), "hamuManager_L0x");
    assert_eq!(pool_base_name("hamuManager"), "hamuManager");
}

#[test]
fn rebinding_moves_an_actor_between_layer_pools() {
    assert_eq!(
        actor_layer_rebind_target("hamuManager", Some(2)).as_deref(),
        Some("hamuManager_L02")
    );
    assert_eq!(
        actor_layer_rebind_target("hamuManager_L02", Some(5)).as_deref(),
        Some("hamuManager_L05")
    );
    assert_eq!(actor_layer_rebind_target("hamuManager_L05", None).as_deref(), Some("hamuManager"));
    assert_eq!(actor_layer_rebind_target("hamuManager_L05", Some(5)), None);
    assert_eq!(actor_layer_rebind_target("hamuManager", None), None);
    let target = actor_layer_rebind_target("x_L07", Some(11)).unwrap();
    assert_eq!(SmsEditorApp::selected_actor_goop_layer(&actor("A", &target)), Some(11));
}

#[test]
fn actor_managers_match_without_their_namespace() {
    let managers = vec!["Enemy::NameKuriManager".to_string(), "BoardNpcManager".to_string()];
    assert!(manager_factory_matches_actor(&managers, "NameKuriManager"));
    assert!(manager_factory_matches_actor(&managers, "Game::BoardNpcManager"));
    assert!(!manager_factory_matches_actor(&managers, "HamuKuriManager"));
    assert!(!manager_factory_matches_actor(&Vec::new(), "NameKuriManager"));
}

#[test]
fn the_pool_carrier_names_the_active_pool_actor() {
    let mut carrier = actor("PoiHanaRed", "poihanaManager");
    carrier.pool_only = true;
    let placed = actor("PoiHana", "poihanaManager");
    let document = StageDocument {
        goop_authoring: None,
        objects: vec![placed, carrier],
        tables: None, tables_untyped: false,
        resource_edits: Vec::new(),
    };
    assert_eq!(active_pool_actor_factory(&document, "poihanaManager").as_deref(), Some("PoiHanaRed"));
    assert_eq!(active_pool_actor_factory(&document, "other"), None);
}

fn stage(layers: Vec<GoopLayer>, objects: Vec<SceneObject>) -> StageDocument {
    StageDocument {
        goop_authoring: Some(GoopAuthoring { layers }),
        objects,
        tables: None, tables_untyped: false,
        resource_edits: Vec::new(),
    }
}

#[test]
fn runtime_layer_bindings_spread_the_layer_pools() {
    let objects = || {
        let mut pool = actor("HamuKuri", "hamuManager_L02");
        pool.pool_only = true;
        vec![actor("HamuKuri", "hamuManager"), pool]
    };
    let layers = || vec![layer(Some("Oil")), layer(None), layer(Some("Paint"))];
    let app = app_with(Some(stage(layers(), objects())));
    let pools = app.layer_pool_bindings();
    assert_eq!(pools.len(), 1);
    assert_eq!(pools.get(&2).map(|s| s.as_str()), Some("hamuManager_L02"));
    assert!(pools.get(&2).unwrap().ends_with(&SmsEditorApp::layer_pool_suffix(2)));
    let spawn = goop_layer_spawn_bindings(&stage(layers(), objects()));
    assert_eq!(spawn.len(), 2);
    assert_eq!(spawn.get(&0), Some(&RuntimeGoopLayerBinding::Empty));
    assert_eq!(spawn.get(&1), None);
    assert_eq!(spawn.get(&2), Some(&RuntimeGoopLayerBinding::Pool("hamuManager_L02".to_string())));

    let without_pools = || stage(vec![layer(Some("Oil"))], vec![actor("HamuKuri", "hamuManager")]);
    assert!(app_with(Some(without_pools())).layer_pool_bindings().is_empty());
    assert!(goop_layer_spawn_bindings(&without_pools()).is_empty());
}

fn character_field(value: &str) -> sms_editor::jdrama::Field {
    sms_editor::jdrama::Field {
        name: "character_name".to_string(),
        value: sms_editor::jdrama::FieldValue::Str(value.to_string()),
    }
}

fn dependency(name: &str, character: &str) -> sms_editor::jdrama::Record {
    sms_editor::jdrama::Record {
        record_type: "HamuKuriManager".to_string(),
        name: name.to_string(),
        payload: sms_editor::jdrama::RecordPayload::Fields {
            fields: vec![
                character_field(character),
                sms_editor::jdrama::Field {
                    name: "count".to_string(),
                    value: sms_editor::jdrama::FieldValue::I32(8),
                },
            ],
        },
    }
}

fn character_of(record: &sms_editor::jdrama::Record) -> String {
    match &record.payload {
        sms_editor::jdrama::RecordPayload::Fields { fields } => match &fields[0].value {
            sms_editor::jdrama::FieldValue::Str(s) => s.clone(),
            _ => panic!("not a string"),
        },
        _ => panic!("not a field record"),
    }
}

#[test]
fn rebinding_moves_the_actor_and_its_manager_record_to_the_layer_pool() {
    let mut object = actor("HamuKuri", "hamuManager_L03");
    object.raw_params = vec![
        ("character_name".to_string(), "hamukuri_L03".to_string()),
        ("manager_name".to_string(), "hamuManager_L03".to_string()),
        ("speed".to_string(), "2".to_string()),
    ];
    let dependencies = vec![dependency("hamuManager_L03", "hamukuri_L03"), dependency("otherManager", "other_L01")];
    let moved = sms_editor::actor_rebind::rebound_actor(&object, &dependencies, Some(7)).unwrap();
    assert_eq!(
        moved.object.raw_params,
        vec![
            ("character_name".to_string(), "hamukuri".to_string()),
            ("manager_name".to_string(), "hamuManager_L07".to_string()),
            ("speed".to_string(), "2".to_string()),
        ]
    );
    assert_eq!(SmsEditorApp::selected_actor_goop_layer(&moved.object), Some(7));
    assert_eq!(moved.dependencies[0].name, "hamuManager_L07");
    assert_eq!(character_of(&moved.dependencies[0]), "hamukuri_L07");
    assert_eq!(moved.dependencies[1].name, "otherManager");
    assert_eq!(character_of(&moved.dependencies[1]), "other_L01");

    let back = sms_editor::actor_rebind::rebound_actor(&moved.object, &moved.dependencies, None).unwrap();
    assert_eq!(raw(&back.object, "manager_name"), Some("hamuManager"));
    assert_eq!(back.dependencies[0].name, "hamuManager");
    assert_eq!(character_of(&back.dependencies[0]), "hamukuri");

    assert!(sms_editor::actor_rebind::rebound_actor(&back.object, &back.dependencies, None).is_none());
    assert!(sms_editor::actor_rebind::rebound_actor(&layer_less_actor(), &Vec::new(), Some(1)).is_none());
}

fn raw<'a>(object: &'a SceneObject, key: &str) -> Option<&'a str> {
    object.raw_params.iter().find(|(k, _)| k == key).map(|(_, v)| v.as_str())
}

fn layer_less_actor() -> SceneObject {
    SceneObject { factory_name: "Coin".to_string(), class_name: None, raw_params: Vec::new(), pool_only: false }
}

fn request(enabled: bool, placed: bool, factory: Option<&str>) -> sms_editor::spawn_update::GoopSpawnRequest {
    sms_editor::spawn_update::GoopSpawnRequest {
        manager_name: "hamuManager".to_string(),
        enabled,
        placed_actors_use_manager: placed,
        catalog_actor_factory: factory.map(str::to_string),
        has_manager_factory: true,
        clone_exists: false,
        manager_flagged: false,
        matching_pool_exists: false,
        manager_survives_pool_removal: true,
        manager_present: true,
    }
}

#[test]
fn placed_actors_send_goop_spawning_to_a_clone_pool() {
    let mut r = request(true, true, Some("HamuKuri"));
    assert_eq!(goop_spawn_plan(&r), Ok(vec![SpawnStep::CloneManagerPool, SpawnStep::FlagPool(true)]));
    r.clone_exists = true;
    r.manager_flagged = true;
    assert_eq!(
        goop_spawn_plan(&r),
        Ok(vec![
            SpawnStep::RepairClonePool,
            SpawnStep::FlagPool(true),
            SpawnStep::FlagManager(false),
            SpawnStep::NoteFlagMoved,
        ])
    );
    r.has_manager_factory = false;
    assert_eq!(goop_spawn_plan(&r), Err("manager \"hamuManager\" has no decomp-derived factory".to_string()));
    let no_bundle = request(true, true, None);
    assert_eq!(
        goop_spawn_plan(&no_bundle),
        Err("manager \"hamuManager\" has hand-placed actors but no retail-backed bundle to                          clone for goop spawning".to_string())
    );
    assert_eq!(
        sms_editor::spawn_update::flag_moved_message("hamuManager"),
        "Moved the goop flag off \"hamuManager\" so its placed actors keep their                          placements; spawning now comes from \"hamuManager_gp\"."
    );
}

#[test]
fn enabling_without_placed_actors_flags_the_manager() {
    let mut r = request(true, false, Some("HamuKuri"));
    assert_eq!(goop_spawn_plan(&r), Ok(vec![SpawnStep::RemovePoolCarriers, SpawnStep::FlagManager(true)]));
    r.manager_survives_pool_removal = false;
    assert_eq!(
        goop_spawn_plan(&r),
        Ok(vec![SpawnStep::RemovePoolCarriers, SpawnStep::ImportCatalogPool, SpawnStep::FlagManager(true)])
    );
    r.matching_pool_exists = true;
    assert_eq!(goop_spawn_plan(&r), Ok(vec![SpawnStep::FlagManager(true)]));
    let red = request(true, false, Some("PoiHanaRed"));
    assert_eq!(
        goop_spawn_plan(&red),
        Ok(vec![SpawnStep::RemovePoolCarriers, SpawnStep::ImportCatalogPool, SpawnStep::FlagManager(true)])
    );
    let mut bare = request(true, false, None);
    assert_eq!(goop_spawn_plan(&bare), Ok(vec![SpawnStep::FlagManager(true)]));
    bare.manager_present = false;
    assert_eq!(
        goop_spawn_plan(&bare),
        Err("manager \"hamuManager\" has no safe retail-backed pool bundle".to_string())
    );
    assert_eq!(
        goop_spawn_plan(&request(false, true, None)),
        Ok(vec![SpawnStep::FlagManager(false), SpawnStep::FlagPool(false), SpawnStep::CleanupUnusedPools])
    );
}

#[test]
fn a_failed_spawn_update_rolls_the_stage_back() {
    let mut carrier = actor("HamuKuri", "hamuManager");
    carrier.pool_only = true;
    let mut app = app_with(Some(StageDocument {
        goop_authoring: None,
        objects: vec![actor("HamuKuri", "hamuManager"), carrier],
        tables: None, tables_untyped: false,
        resource_edits: Vec::new(),
    }));
    let snapshot = app.begin_goop_spawn_update().unwrap();
    app.remove_pool_carriers("hamuManager");
    assert_eq!(app.document.as_ref().unwrap().objects.len(), 1);
    assert_eq!(app.apply_manager_spawn("hamuManager", true, Some(true)), Ok(()));
    assert!(app.manager_spawns_from_goop("hamuManager"));
    assert_eq!(
        app.apply_manager_spawn("ghostManager", true, Some(false)),
        Err("\"ghostManager\" is not a decomp-identified TEnemyManager in the effective scene".to_string())
    );
    assert_eq!(app.apply_manager_spawn("x", true, None), Err("enemy schema is unavailable".to_string()));
    app.finish_goop_spawn_update("hamuManager", true, snapshot, Err("the bundle is missing".to_string()));
    let document = app.document.as_ref().unwrap();
    assert_eq!(document.objects.len(), 2);
    assert!(document.tables.is_none());
    assert!(!app.manager_spawns_from_goop("hamuManager"));
    assert_eq!(app.log.last().map(String::as_str), Some("Could not update goop spawning: the bundle is missing"));

    let snapshot = app.begin_goop_spawn_update().unwrap();
    assert_eq!(app.apply_manager_spawn("hamuManager", false, None), Ok(()));
    assert!(app.document.as_ref().unwrap().tables.is_none());
    app.finish_goop_spawn_update("hamuManager", false, snapshot, Ok(vec!["note".to_string()]));
    assert_eq!(app.log[app.log.len() - 2], "note");
    assert_eq!(app.log.last().map(String::as_str), Some("hamuManager no longer spawns from goop."));
    assert_eq!(app_with(None).apply_manager_spawn("m", false, None), Err("no stage is open".to_string()));
}

#[test]
fn the_library_runs_its_own_spawn_steps() {
    let mut carrier = actor("HamuKuri", "hamuManager");
    carrier.pool_only = true;
    let mut app = app_with(Some(StageDocument {
        goop_authoring: None,
        objects: vec![carrier, actor("HamuKuri", "hamuManager")],
        tables: None, tables_untyped: false,
        resource_edits: Vec::new(),
    }));
    assert_eq!(app.run_spawn_step("hamuManager", SpawnStep::FlagPool(true), Some(true)), Ok(None));
    assert!(app.manager_spawns_from_goop("hamuManager"));
    assert_eq!(app.run_spawn_step("hamuManager", SpawnStep::RemovePoolCarriers, None), Ok(None));
    assert_eq!(app.document.as_ref().unwrap().objects.len(), 1);
    assert_eq!(
        app.run_spawn_step("hamuManager", SpawnStep::NoteFlagMoved, None),
        Ok(Some(sms_editor::spawn_update::flag_moved_message("hamuManager")))
    );
    assert_eq!(
        app.run_spawn_step("hamuManager", SpawnStep::FlagManager(true), Some(false)),
        Err("\"hamuManager\" is not a decomp-identified TEnemyManager in the effective scene".to_string())
    );
    assert_eq!(app.run_spawn_step("hamuManager", SpawnStep::FlagPool(false), None), Ok(None));
    assert!(!app.manager_spawns_from_goop("hamuManager"));
}

fn stu_model(path: &str, pinned: bool) -> sms_editor::editor::ResourceEdit {
    sms_editor::editor::ResourceEdit {
        raw_resource_path: path.as_bytes().to_vec(),
        model: Some(sms_editor::editor::ModelStainState {
            has_stain_dummy_texture: true,
            can_pin_stain_blend: true,
            stain_blend_pinned: pinned,
        }),
    }
}

fn stage_with_edits(edits: Vec<sms_editor::editor::ResourceEdit>) -> SmsEditorApp {
    app_with(Some(StageDocument { goop_authoring: None, objects: Vec::new(), tables: None, tables_untyped: false, resource_edits: edits }))
}

#[test]
fn layer_pool_models_never_decide_the_stain_toggle() {
    let base_only = stage_with_edits(vec![stu_model("hamukuri/default.bmd", false)]);
    let with_pool = stage_with_edits(vec![
        stu_model("hamukuri_l01/default.bmd", true),
        stu_model("hamukuri/default.bmd", false),
    ]);
    assert_eq!(base_only.stu_stain_available(), with_pool.stu_stain_available());
    assert_eq!(base_only.stu_stain_baked(), with_pool.stu_stain_baked());
    assert!(!with_pool.stu_stain_baked());
    let pool_only = stage_with_edits(vec![stu_model("hamukuri_l01/default.bmd", true)]);
    assert!(!pool_only.stu_stain_available());
    assert!(!pool_only.stu_stain_baked());
    assert!(!app_with(None).stu_stain_available());
}

#[test]
fn untyped_enemy_tables_refuse_a_spawn_flag() {
    let mut app = stage_with_edits(Vec::new());
    app.document.as_mut().unwrap().tables_untyped = true;
    assert_eq!(
        app.apply_manager_spawn("hamuManager", true, Some(true)),
        Err("map/tables.bin is not typed placement data".to_string())
    );
    assert!(app.document.as_ref().unwrap().tables.is_none());
    assert_eq!(app.apply_manager_spawn("hamuManager", true, None), Err("enemy schema is unavailable".to_string()));
}
