use sms_editor::music::{
    extract_bgm_wave_scenes, extract_retail_bgm_names, extract_retail_sound_entries, friendly_bgm_name,
    friendly_sound_name, index_retail_sounds, load_retail_bgm_names, parse_hex,
    title_case_identifier,
};

fn asn_bytes(records: &[(&str, u16)]) -> Vec<u8> {
    let mut bytes = vec![0_u8; 0x10];
    for (symbol, sound_id) in records {
        let mut record = [0_u8; 0x20];
        record[..symbol.len()].copy_from_slice(symbol.as_bytes());
        record[0x1e..].copy_from_slice(&sound_id.to_be_bytes());
        bytes.extend_from_slice(&record);
    }
    bytes
}

#[test]
fn extracts_ordered_retail_names_and_presents_readable_labels() {
    let names =
        extract_retail_bgm_names("\0MSD_BGM_DOLPIC\0\0MSD_BGM_BIANCO\0MSD_BGM_TIME_IVENT\0")
            .unwrap();
    assert_eq!(names[&0x8001_0001], "MSD_BGM_DOLPIC");
    assert_eq!(names[&0x8001_0002], "MSD_BGM_BIANCO");
    assert_eq!(names[&0x8001_0003], "MSD_BGM_TIME_IVENT");
    assert_eq!(friendly_bgm_name(&names[&0x8001_0001]), "Delfino Plaza");
    assert_eq!(friendly_bgm_name(&names[&0x8001_0003]), "Timed Event");
    assert_eq!(friendly_bgm_name("MSD_BGM_MAIN_TITLE"), "Main Title");
}

#[test]
fn extracts_exact_sound_ids_from_fixed_asn_records() {
    let bytes = asn_bytes(&[
        ("MSD_CAT_ENVIRONMENT", 0x0000_u16),
        ("MSD_SE_EV_GLOBAL_SEA_L", 0x5000),
        ("MSD_SE_EV_GLOBAL_SEA_R", 0x5001),
    ]);
    let entries = extract_retail_sound_entries(&bytes).unwrap();
    assert_eq!(entries.len(), 2);
    assert_eq!(entries[0].sound_id, 0x5000);
    assert_eq!(entries[0].symbol, "MSD_SE_EV_GLOBAL_SEA_L");
    assert_eq!(entries[0].label, "Ev Global Sea L");
}

#[test]
fn sound_entries_come_out_in_sound_id_order() {
    let bytes = asn_bytes(&[("MSD_XX_LATE", 0x7001), ("MSD_SE_EARLY", 0x0102)]);
    let entries = index_retail_sounds(&bytes).unwrap();
    assert_eq!(entries.len(), 2);
    assert_eq!(entries[0].sound_id, 0x0102);
    assert_eq!(entries[0].label, "Early");
    assert_eq!(entries[1].sound_id, 0x7001);
    assert_eq!(entries[1].symbol, "MSD_XX_LATE");
}

#[test]
fn sound_tables_without_named_effects_are_refused() {
    assert_eq!(
        extract_retail_sound_entries(&[0_u8; 0x2f]).unwrap_err(),
        "retail mSound.asn is too short for its assignment records"
    );
    assert_eq!(
        extract_retail_sound_entries(&asn_bytes(&[("MSD_CAT_ENVIRONMENT", 1)])).unwrap_err(),
        "retail mSound.asn contains no named sound-effect assignments"
    );
}

#[test]
fn two_symbols_on_one_sound_id_are_refused() {
    let bytes = asn_bytes(&[("MSD_SE_ONE", 0x10), ("MSD_SE_TWO", 0x10)]);
    assert_eq!(
        extract_retail_sound_entries(&bytes).unwrap_err(),
        "retail mSound.asn assigns both MSD_SE_ONE and MSD_SE_TWO to SE 0x0010"
    );
}

#[test]
fn retail_bgm_names_keep_their_first_appearance_only() {
    let names = load_retail_bgm_names(b"MSD_BGM_KUPPA MSD_BGM_DOLPIC MSD_BGM_KUPPA x").unwrap();
    assert_eq!(names.len(), 2);
    assert_eq!(names[&0x8001_0001], "MSD_BGM_KUPPA");
    assert_eq!(names[&0x8001_0002], "MSD_BGM_DOLPIC");
    assert_eq!(
        load_retail_bgm_names(b"MSD_BGM_").unwrap_err(),
        "retail mSound.asn contains no MSD_BGM names"
    );
    assert_eq!(
        extract_retail_bgm_names("msd_bgm_dolpic").unwrap_err(),
        "retail mSound.asn contains no MSD_BGM names"
    );
}

#[test]
fn identifiers_become_title_case_words() {
    assert_eq!(title_case_identifier("EV_GLOBAL__SEA_L"), "Ev Global Sea L");
    assert_eq!(title_case_identifier("_"), "");
    assert_eq!(title_case_identifier("ábc_DEF"), "Ábc Def");
    assert_eq!(friendly_sound_name("MSD_SE_MA_JUMP"), "Ma Jump");
    assert_eq!(friendly_sound_name("OTHER_NAME"), "Other Name");
    assert_eq!(friendly_bgm_name("MSD_BGM_CHUBOSS_MANTA"), "Phantamanta");
    assert_eq!(friendly_bgm_name("SOMETHING_NEW"), "Something New");
}

#[test]
fn hexadecimal_ids_parse_after_their_prefix() {
    assert_eq!(parse_hex("0x80010001"), Ok(0x8001_0001));
    assert_eq!(parse_hex("0x0x1f"), Ok(0x1f));
    assert_eq!(parse_hex("FFFFFFFF"), Ok(u32::MAX));
    assert_eq!(
        parse_hex("0x"),
        Err("parse hexadecimal value 0x: cannot parse integer from empty string".to_string())
    );
    assert_eq!(
        parse_hex("0x12g"),
        Err("parse hexadecimal value 0x12g: invalid digit found in string".to_string())
    );
    assert_eq!(
        parse_hex("100000000"),
        Err("parse hexadecimal value 100000000: number too large to fit in target type".to_string())
    );
}

#[test]
fn extracts_decomp_bgm_wave_scene_pairs() {
    let source = "case 0x80010001:\n return 0x201;\ncase 0x80010002: return 0x202;";
    let result = extract_bgm_wave_scenes(source).unwrap();
    assert_eq!(result[&0x8001_0001], 0x201);
    assert_eq!(result[&0x8001_0002], 0x202);
}

#[test]
fn wave_scene_arms_need_their_exact_shape() {
    let source = "case\t0xAb :\n\treturn\u{3000}0x1f ;\ncase0x2: return 0x3;\ncase 0x4: return 5;";
    let result = extract_bgm_wave_scenes(source).unwrap();
    assert_eq!(result.len(), 1);
    assert_eq!(result[&0xab], 0x1f);
    assert!(extract_bgm_wave_scenes("switch (id) {}").unwrap().is_empty());
}

#[test]
fn wave_scene_tables_refuse_repeats_and_oversized_ids() {
    assert_eq!(
        extract_bgm_wave_scenes("case 0x80010001: return 0x1; case 0x80010001: return 0x2;").unwrap_err(),
        "decomp contains duplicate BGM mapping 0x80010001"
    );
    assert_eq!(
        extract_bgm_wave_scenes("case 0x100000000: return 0x1;").unwrap_err(),
        "parse hexadecimal value 0x100000000: number too large to fit in target type"
    );
}
