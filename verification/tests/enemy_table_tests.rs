use sms_editor::editor::StageDocument;
use sms_editor::enemy_table::{
    apply_spawn_to_tables, enemy_info_record, fresh_tables_document, goop_flagged_managers,
};
use sms_editor::jdrama::{
    any_record, entry_for_manager, entry_spawns_from_goop, FieldValue, Record, RecordPayload,
    RecordQuery,
};

const GOOBLE_MANAGER_NAME: &str =
    "\u{30CA}\u{30E1}\u{30AF}\u{30EA}\u{30DE}\u{30CD}\u{30FC}\u{30B8}\u{30E3}\u{30FC}";
const ENEMY_TABLE_NAME: &str = "\u{6575}\u{51FA}\u{73FE}\u{30C6}\u{30FC}\u{30D6}\u{30EB}";

fn count_entries(record: &Record, manager: &str) -> usize {
    let own = usize::from(entry_for_manager(record, manager));
    match &record.payload {
        RecordPayload::Group { children, .. } => {
            own + children.iter().map(|child| count_entries(child, manager)).sum::<usize>()
        }
        _ => own,
    }
}

fn spawning(record: &Record, manager: &str) -> bool {
    any_record(record, &RecordQuery::SpawningEntry(manager.to_string(), manager.to_string()))
}

#[test]
fn the_flag_round_trips_through_an_empty_table() {
    let mut tables = fresh_tables_document();
    assert!(apply_spawn_to_tables(&mut tables, GOOBLE_MANAGER_NAME, true));
    assert!(spawning(&tables, GOOBLE_MANAGER_NAME));
    // Setting it again is a no-op, not a duplicate entry.
    assert!(!apply_spawn_to_tables(&mut tables, GOOBLE_MANAGER_NAME, true));

    assert!(apply_spawn_to_tables(&mut tables, GOOBLE_MANAGER_NAME, false));
    assert_eq!(count_entries(&tables, GOOBLE_MANAGER_NAME), 1);
    assert!(!spawning(&tables, GOOBLE_MANAGER_NAME));
}

/// An existing retail-style entry keeps its identity; only the bit moves.
#[test]
fn an_existing_entry_is_flagged_in_place() {
    let mut tables = fresh_tables_document();
    if let RecordPayload::Group { children, .. } = &mut tables.payload {
        children.push(Record {
            record_type: "StageEnemyInfoHeader".to_string(),
            name: ENEMY_TABLE_NAME.to_string(),
            payload: RecordPayload::Group {
                fields: Vec::new(),
                children: vec![enemy_info_record(GOOBLE_MANAGER_NAME, 0)],
            },
        });
    } else {
        unreachable!()
    }
    assert!(apply_spawn_to_tables(&mut tables, GOOBLE_MANAGER_NAME, true));
    assert_eq!(
        count_entries(&tables, GOOBLE_MANAGER_NAME),
        1,
        "flagging must edit the entry, not add another"
    );
}

#[test]
fn a_fresh_table_holds_one_flagged_entry_under_a_new_header() {
    let mut tables = fresh_tables_document();
    assert_eq!(tables.record_type, "NameRefGrp");
    assert!(!apply_spawn_to_tables(&mut tables, "hamuManager", false));
    assert!(apply_spawn_to_tables(&mut tables, "hamuManager", true));
    let RecordPayload::Group { children, .. } = &tables.payload else { unreachable!() };
    assert_eq!(children.len(), 1);
    assert_eq!(children[0].record_type, "StageEnemyInfoHeader");
    assert_eq!(children[0].name, ENEMY_TABLE_NAME);
    let RecordPayload::Group { children: entries, .. } = &children[0].payload else { unreachable!() };
    assert_eq!(entries.len(), 1);
    assert_eq!(entries[0].name, "\u{6575}\u{60C5}\u{5831}");
    let RecordPayload::Fields { fields } = &entries[0].payload else { unreachable!() };
    assert_eq!(fields.len(), 3);
    assert!(matches!(&fields[1].value, FieldValue::I32(1)));
    assert!(matches!(&fields[2].value, FieldValue::U32(100)));
}

#[test]
fn clearing_keeps_the_other_flag_bits() {
    let mut tables = fresh_tables_document();
    if let RecordPayload::Group { children, .. } = &mut tables.payload {
        children.push(Record {
            record_type: "StageEnemyInfoHeader".to_string(),
            name: ENEMY_TABLE_NAME.to_string(),
            payload: RecordPayload::Group {
                fields: Vec::new(),
                children: vec![enemy_info_record("a", 0b110), enemy_info_record("b", 0b111)],
            },
        });
    }
    assert!(apply_spawn_to_tables(&mut tables, "b", false));
    assert!(apply_spawn_to_tables(&mut tables, "a", true));
    let RecordPayload::Group { children, .. } = &tables.payload else { unreachable!() };
    let RecordPayload::Group { children: entries, .. } = &children[0].payload else { unreachable!() };
    let flags: Vec<i32> = entries
        .iter()
        .map(|entry| match &entry.payload {
            RecordPayload::Fields { fields } => match fields[1].value {
                FieldValue::I32(f) => f,
                _ => -1,
            },
            _ => -1,
        })
        .collect();
    assert_eq!(flags, vec![0b111, 0b110]);
    assert!(entry_spawns_from_goop(&entries[0]));
    assert!(!entry_spawns_from_goop(&entries[1]));
}

#[test]
fn a_root_that_is_not_a_group_is_left_alone() {
    let mut root = Record { record_type: "NameRefGrp".to_string(), name: "x".to_string(), payload: RecordPayload::Empty };
    assert!(!apply_spawn_to_tables(&mut root, "a", true));
    assert!(matches!(root.payload, RecordPayload::Empty));
}

#[test]
fn flagged_managers_are_listed_once_each() {
    let mut tables = fresh_tables_document();
    if let RecordPayload::Group { children, .. } = &mut tables.payload {
        children.push(Record {
            record_type: "StageEnemyInfoHeader".to_string(),
            name: ENEMY_TABLE_NAME.to_string(),
            payload: RecordPayload::Group {
                fields: Vec::new(),
                children: vec![
                    enemy_info_record("a", 1),
                    enemy_info_record("b", 0),
                    enemy_info_record("a", 3),
                ],
            },
        });
    }
    assert!(apply_spawn_to_tables(&mut tables, "c", true));
    let document = StageDocument {
        goop_authoring: None,
        objects: Vec::new(),
        tables: Some(tables), tables_untyped: false,
        resource_edits: Vec::new(),
    };
    let managers = goop_flagged_managers(&document);
    assert_eq!(managers, vec!["a".to_string(), "c".to_string()]);
    let empty = StageDocument { goop_authoring: None, objects: Vec::new(), tables: None, tables_untyped: false, resource_edits: Vec::new() };
    assert!(goop_flagged_managers(&empty).is_empty());
}

#[test]
fn flagged_managers_come_in_name_order() {
    let mut tables = fresh_tables_document();
    assert!(apply_spawn_to_tables(&mut tables, "zakoManager", true));
    assert!(apply_spawn_to_tables(&mut tables, "HamuKuriManager", true));
    assert!(apply_spawn_to_tables(&mut tables, "hamuManager", true));
    let document = StageDocument { goop_authoring: None, objects: Vec::new(), tables: Some(tables), tables_untyped: false, resource_edits: Vec::new() };
    assert_eq!(
        goop_flagged_managers(&document),
        vec!["HamuKuriManager".to_string(), "hamuManager".to_string(), "zakoManager".to_string()]
    );
}
