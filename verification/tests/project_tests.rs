use sms_editor::project::{
    comparable_components, default_project_data_root, ensure_sms_extension, migrate_stage_music,
    path_is_same_or_child, paths_equal, recent_age_label, resistance_default, validate_locations,
    validate_project, wash_step_default, LegacyProjectStageMusic, ProjectDescriptorCheck,
    ProjectLocations, ProjectMusicRoleOverride, ProjectMusicTrack, ProjectPathFacts,
    ProjectStageMusicProfile, ProjectStageMusicTransition, RecentProjectEntry, RecentProjects,
    path_facts, PathPart, stage_music_for, stage_music_line, with_stage_music,
};

fn descriptor(data_root: &str, absolute: bool, escapes: bool) -> ProjectDescriptorCheck {
    ProjectDescriptorCheck {
        format_version: 2,
        kind: "sms-editor-project".to_string(),
        name: "Unsafe".to_string(),
        project_id: "id".to_string(),
        stage_cameras: Vec::new(),
        stage_music: Vec::new(),
        sound_assignments: Vec::new(),
        base_game_root_empty: false,
        project_data_root: ProjectPathFacts {
            empty: data_root.is_empty(),
            absolute,
            escapes,
            display: data_root.to_string(),
        },
        managed_build_root: None,
    }
}

fn entry(path: &str, opened: u64) -> RecentProjectEntry {
    RecentProjectEntry {
        path: path.to_string(),
        last_opened_unix: opened,
        name: path.trim_end_matches(".sms").to_string(),
        base_game_root: "C:\\Games\\SunshineJPExtract".to_string(),
    }
}

fn components(parts: &[&str]) -> Vec<String> {
    parts.iter().map(|p| p.to_string()).collect()
}

#[test]
fn sms_project_rejects_parent_traversal_in_relative_data_root() {
    let mut project = descriptor("../outside", false, false);
    project.project_data_root =
        path_facts(&vec![PathPart::ParentDir, PathPart::Normal("outside".to_string())], false, false, "../outside");
    let error = validate_project(&project, "unsafe.sms").expect_err("parent traversal must be rejected");
    assert!(error.contains("unsafe relative data path"));
    assert_eq!(error, "Project 'unsafe.sms' has an unsafe relative data path '../outside'");
}

#[test]
fn data_path_components_decide_whether_a_relative_path_escapes() {
    let nested = vec![
        PathPart::Normal("data".to_string()),
        PathPart::ParentDir,
        PathPart::ParentDir,
        PathPart::Normal("outside".to_string()),
    ];
    let facts = path_facts(&nested, false, false, "data/../../outside");
    assert!(facts.escapes);
    let mut project = descriptor("", false, false);
    project.project_data_root = facts;
    assert!(validate_project(&project, "unsafe.sms").is_err_and(|e| e.contains("unsafe relative data path")));
    let plain = vec![PathPart::CurDir, PathPart::Normal("Isle Delfino.smsdata".to_string())];
    assert!(!path_facts(&plain, false, false, "./Isle Delfino.smsdata").escapes);
    assert!(path_facts(&vec![PathPart::RootDir, PathPart::Normal("data".to_string())], false, false, "/data").escapes);
    assert!(path_facts(&vec![PathPart::Prefix, PathPart::Normal("data".to_string())], false, false, "C:data").escapes);
    let mut absolute = descriptor("", false, false);
    absolute.project_data_root = path_facts(&vec![PathPart::RootDir, PathPart::ParentDir], false, true, "/..");
    assert_eq!(validate_project(&absolute, "a.sms"), Ok(()));
}

#[test]
fn a_sound_descriptor_validates() {
    assert_eq!(validate_project(&descriptor("Isle Delfino.smsdata", false, false), "a.sms"), Ok(()));
    assert_eq!(validate_project(&descriptor("C:\\data", true, true), "a.sms"), Ok(()));
}

#[test]
fn descriptor_problems_are_reported_first_to_last() {
    let mut d = descriptor("data", false, false);
    d.format_version = 3;
    d.name = String::new();
    assert_eq!(
        validate_project(&d, "p.sms").unwrap_err(),
        "Project 'p.sms' uses format version 3; this editor supports version 2"
    );
    d.format_version = 2;
    assert_eq!(validate_project(&d, "p.sms").unwrap_err(), "Project 'p.sms' has no name");
    d.name = "Named".to_string();
    d.kind = "other".to_string();
    assert_eq!(
        validate_project(&d, "p.sms").unwrap_err(),
        "Project 'p.sms' has unsupported kind 'other'"
    );
}

#[test]
fn sms_project_refuses_a_descriptor_inside_the_base_game() {
    let locations = ProjectLocations {
        descriptor: components(&["C:", "games", "extract", "unsafe location.sms"]),
        base_root: components(&["C:", "games", "extract"]),
        data_root: components(&["C:", "games", "extract", "unsafe location.smsdata"]),
        build_root: components(&["C:", "games", "build"]),
    };
    let error = validate_locations(&locations, "X.sms", "X.smsdata", "build").unwrap_err();
    assert!(error.contains("descriptor must be outside"));
    let fine = ProjectLocations {
        descriptor: components(&["C:", "work", "x.sms"]),
        base_root: components(&["C:", "games", "extract"]),
        data_root: components(&["C:", "work", "x.smsdata"]),
        build_root: components(&["C:", "work", "x.build"]),
    };
    assert_eq!(validate_locations(&fine, "x.sms", "x.smsdata", "x.build"), Ok(()));
    let overlapping = ProjectLocations {
        descriptor: components(&["C:", "work", "x.sms"]),
        base_root: components(&["C:", "games", "extract"]),
        data_root: components(&["C:", "games"]),
        build_root: components(&["C:", "work", "x.build"]),
    };
    assert_eq!(
        validate_locations(&overlapping, "x.sms", "C:\\games", "x.build").unwrap_err(),
        "Project data must not overlap the extracted base game directory: C:\\games"
    );
}

#[test]
fn recent_projects_are_deduplicated_newest_first() {
    let mut recents = RecentProjects::empty();
    recents.touch(entry("First.sms", 1), false);
    recents.touch(entry("Second.sms", 2), false);
    recents.touch(entry("First.sms", 3), false);
    let listed = recents.entries();
    assert_eq!(listed.len(), 2);
    assert_eq!(listed[0].path, "First.sms");
    assert_eq!(listed[0].last_opened_unix, 3);
    assert_eq!(listed[1].path, "Second.sms");
    recents.touch(entry("first.SMS", 4), true);
    assert_eq!(recents.entries().len(), 2);
    assert_eq!(recents.entries()[0].path, "first.SMS");
    recents.remove("SECOND.sms", false);
    assert_eq!(recents.entries().len(), 2);
    recents.remove("SECOND.sms", true);
    assert_eq!(recents.entries().len(), 1);
    assert!(recents.config_path().is_none());
}

#[test]
fn recent_projects_keep_at_most_twelve() {
    let mut recents = RecentProjects::with_entries(Some("recent-projects.toml".to_string()), Vec::new());
    for i in 0..20 {
        recents.touch(entry(&format!("P{i}.sms"), i), false);
    }
    assert_eq!(recents.entries().len(), 12);
    assert_eq!(recents.entries()[0].path, "P19.sms");
    assert_eq!(recents.entries()[11].path, "P8.sms");
    assert_eq!(recents.config_path().as_deref(), Some("recent-projects.toml"));
}

#[test]
fn legacy_stage_music_becomes_main_and_inside_roles() {
    let migrated = migrate_stage_music(LegacyProjectStageMusic {
        bgm_id: 0x8001_0001,
        wave_scene_id: 0x0201,
        secondary_bgm_id: Some(0x8001_0016),
        secondary_wave_scene_id: None,
    });
    assert_eq!(
        migrated.main,
        Some(ProjectMusicRoleOverride::Track { bgm_id: 0x8001_0001, wave_scene_id: Some(0x0201) })
    );
    assert_eq!(
        migrated.inside,
        Some(ProjectMusicRoleOverride::Track { bgm_id: 0x8001_0016, wave_scene_id: None })
    );
    assert_eq!(migrated.transition, ProjectStageMusicTransition::InsideCrossfade);
    assert!(!migrated.is_default());
    let single = migrate_stage_music(LegacyProjectStageMusic {
        bgm_id: 0x8001_0002,
        wave_scene_id: 7,
        secondary_bgm_id: None,
        secondary_wave_scene_id: Some(3),
    });
    assert_eq!(single.inside, None);
    assert_eq!(single.transition, ProjectStageMusicTransition::GameDefault);
}

#[test]
fn music_tracks_hold_retail_ids() {
    let track = ProjectMusicTrack::resolved(0x8001_0003, 0x0300);
    assert!(track.is_valid());
    assert_eq!(ProjectMusicRoleOverride::track_override(track).track(), Some(track));
    assert_eq!(ProjectMusicRoleOverride::Silent.track(), None);
    assert!(!ProjectMusicTrack { bgm_id: 0x8002_0003, wave_scene_id: None }.is_valid());
    assert!(!ProjectMusicTrack { bgm_id: 0x8001_0003, wave_scene_id: Some(0x1_0000) }.is_valid());
    let profile = ProjectStageMusicProfile {
        main: Some(ProjectMusicRoleOverride::Silent),
        entrance: None,
        inside: None,
        switch_a: Some(ProjectMusicRoleOverride::Track { bgm_id: 5, wave_scene_id: None }),
        switch_b: None,
        transition: ProjectStageMusicTransition::SwitchRegion,
    };
    assert!(!profile.is_valid());
    assert!(!profile.is_default());
}

#[test]
fn descriptors_must_use_the_sms_extension() {
    assert_eq!(ensure_sms_extension(Some("sms"), "a.sms"), Ok(()));
    assert_eq!(ensure_sms_extension(Some("SMS"), "a.SMS"), Ok(()));
    assert_eq!(
        ensure_sms_extension(Some("toml"), "a.toml"),
        Err("Graffito-Editor projects must use the .sms extension: a.toml".to_string())
    );
    assert!(ensure_sms_extension(None, "a").is_err());
}

#[test]
fn data_roots_are_named_after_the_descriptor() {
    assert_eq!(default_project_data_root(Some("Isle Delfino")), "Isle Delfino.smsdata");
    assert_eq!(default_project_data_root(Some("  ")), "project.smsdata");
    assert_eq!(default_project_data_root(None), "project.smsdata");
}

#[test]
fn ages_use_the_largest_whole_unit() {
    assert_eq!(recent_age_label(1000, 1030), "Opened just now");
    assert_eq!(recent_age_label(1000, 900), "Opened just now");
    assert_eq!(recent_age_label(0, 125), "Opened 2m ago");
    assert_eq!(recent_age_label(0, 7200), "Opened 2h ago");
    assert_eq!(recent_age_label(0, 3 * 86400 + 5), "Opened 3d ago");
}

#[test]
fn paths_compare_with_or_without_case() {
    assert!(paths_equal("C:\\A.sms", "c:\\a.SMS", true));
    assert!(!paths_equal("C:\\A.sms", "c:\\a.SMS", false));
    assert_eq!(
        comparable_components(&components(&["C:", "Games"]), true),
        components(&["c:", "games"])
    );
    assert!(path_is_same_or_child(&components(&["c:", "a", "b"]), &components(&["c:", "a"])));
    assert!(path_is_same_or_child(&components(&["c:", "a"]), &components(&["c:", "a"])));
    assert!(!path_is_same_or_child(&components(&["c:", "ab"]), &components(&["c:", "a"])));
    assert!(!path_is_same_or_child(&components(&["c:"]), &components(&["c:", "a"])));
}

#[test]
fn project_defaults_match_the_runtime() {
    assert_eq!(resistance_default(), 4);
    assert_eq!(wash_step_default(), 1);
}

fn track_profile(bgm_id: u32, wave: Option<u32>) -> sms_editor::project::ProjectStageMusicProfile {
    sms_editor::project::ProjectStageMusicProfile {
        main: Some(sms_editor::project::ProjectMusicRoleOverride::Track { bgm_id, wave_scene_id: wave }),
        entrance: None,
        inside: None,
        switch_a: None,
        switch_b: None,
        transition: sms_editor::project::ProjectStageMusicTransition::GameDefault,
    }
}

#[test]
fn choosing_stage_music_replaces_the_stage_in_any_case() {
    let music = vec![
        ("Bianco0".to_string(), track_profile(0x8001_0001, Some(1))),
        ("dolpic0".to_string(), track_profile(0x8001_0002, Some(2))),
        ("BIANCO0".to_string(), track_profile(0x8001_0003, Some(3))),
    ];
    assert_eq!(stage_music_for(&music, "bianco0"), Some(track_profile(0x8001_0001, Some(1))));
    assert_eq!(stage_music_for(&music, "ricco0"), None);
    let chosen = with_stage_music(&music, "bianco0", Some(track_profile(0x8001_0010, Some(0x1f))));
    assert_eq!(
        chosen,
        vec![
            ("dolpic0".to_string(), track_profile(0x8001_0002, Some(2))),
            ("bianco0".to_string(), track_profile(0x8001_0010, Some(0x1f))),
        ]
    );
    assert_eq!(stage_music_for(&chosen, "Bianco0"), Some(track_profile(0x8001_0010, Some(0x1f))));
    let cleared = with_stage_music(&chosen, "BIANCO0", None);
    assert_eq!(cleared, vec![("dolpic0".to_string(), track_profile(0x8001_0002, Some(2)))]);
}

#[test]
fn stage_music_choices_log_what_happened() {
    assert_eq!(
        stage_music_line("bianco0", Some(track_profile(0x8001_0010, Some(0x1f))), &Ok(())),
        "Set stage 'bianco0' music to BGM 0x80010010 (wave scene 0x1F)."
    );
    assert_eq!(
        stage_music_line("bianco0", Some(track_profile(0x10, None)), &Ok(())),
        "Set stage 'bianco0' music to BGM 0x00000010."
    );
    assert_eq!(stage_music_line("bianco0", None, &Ok(())), "Restored stage 'bianco0' to the game's default music.");
    assert_eq!(
        stage_music_line("bianco0", None, &Err("disk full".to_string())),
        "Could not save stage music selection: disk full"
    );
}
