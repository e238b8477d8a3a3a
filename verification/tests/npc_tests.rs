use sms_editor::editor::SceneObject;
use sms_editor::npc::{
    apply_mare_material_color, apply_monte_material_color, apply_npc_accessory_material_color,
    mare_body_color, monte_material_colors, nozzle_box_tev_reg1_color, npc_color_index,
    npc_has_initial_pollution_color, npc_pollution_k_color, paired_color, parse_i32_of,
    J3dMaterial, NpcAccessorySpec, NpcColorChange,
};

fn object(factory: &str, params: &[(&str, &str)]) -> SceneObject {
    SceneObject {
        factory_name: factory.to_string(),
        class_name: None,
        raw_params: params.iter().map(|(k, v)| (k.to_string(), v.to_string())).collect(),
        pool_only: false,
    }
}

fn material(name: &str) -> J3dMaterial {
    J3dMaterial {
        name: name.to_string(),
        material_index: 0,
        material_colors: [[1, 2, 3, 4]; 2],
        tev_colors: [[0; 4]; 4],
        tev_k_colors: [[9; 4]; 4],
    }
}

#[test]
fn decimal_parameters_parse_like_i32() {
    assert_eq!(parse_i32_of("+12"), Some(12));
    assert_eq!(parse_i32_of("-2147483648"), Some(i32::MIN));
    assert_eq!(parse_i32_of("2147483647"), Some(i32::MAX));
    assert_eq!(parse_i32_of("2147483648"), None);
    assert_eq!(parse_i32_of(""), None);
    assert_eq!(parse_i32_of("-"), None);
    assert_eq!(parse_i32_of("1a"), None);
    assert_eq!(parse_i32_of(" 1"), None);
}

#[test]
fn color_indices_must_be_non_negative() {
    let npc = object("NPCMonteMA", &[("npc_body_color_index", "2"), ("npc_cloth_color_index", "-1")]);
    assert_eq!(npc_color_index(&npc, "npc_body_color_index"), Some(2));
    assert_eq!(npc_color_index(&npc, "npc_cloth_color_index"), None);
    assert_eq!(npc_color_index(&npc, "missing"), None);
}

#[test]
fn villagers_and_toad_carry_the_initial_pollution_colour() {
    assert!(npc_has_initial_pollution_color(&object("NPCMonteMA", &[])));
    assert!(npc_has_initial_pollution_color(&object("npcmarewb", &[])));
    assert!(npc_has_initial_pollution_color(&object("NPCKinopio", &[])));
    assert!(!npc_has_initial_pollution_color(&object("NPCKinopioX", &[])));
    assert!(!npc_has_initial_pollution_color(&object("NPCPeach", &[])));
    let heavy = object("NPCMonteMA", &[("npc_pollution_amount", "300")]);
    assert_eq!(npc_pollution_k_color(&heavy), Some([255, 255, 255, 255]));
    let light = object("NPCMonteMA", &[("npc_pollution_amount", "12")]);
    assert_eq!(npc_pollution_k_color(&light), Some([255, 255, 255, 12]));
    let clean = object("NPCMonteMA", &[("npc_pollution_amount", "-4")]);
    assert_eq!(npc_pollution_k_color(&clean), Some([255, 255, 255, 0]));
    let other = object("NPCPeach", &[("npc_pollution_amount", "12")]);
    assert_eq!(npc_pollution_k_color(&other), None);
}

#[test]
fn noki_bodies_take_their_table_colour() {
    let npc = object("NPCMareMB", &[("npc_body_color_index", "1")]);
    assert_eq!(mare_body_color(&npc), Some([350, 340, 120, 255]));
    let out_of_range = object("NPCMareWA", &[("npc_body_color_index", "6")]);
    assert_eq!(mare_body_color(&out_of_range), None);
    let mut body = material("_BODY");
    apply_mare_material_color(&mut body, &npc);
    assert_eq!(body.tev_colors[0], [350, 340, 120, 255]);
    assert_eq!(body.tev_colors[1], [0; 4]);
    let mut other = material("_eye");
    apply_mare_material_color(&mut other, &npc);
    assert_eq!(other.tev_colors, [[0; 4]; 4]);
}

#[test]
fn pianta_colours_depend_on_the_factory() {
    let me = object("NPCMonteME", &[("npc_body_color_index", "0"), ("npc_cloth_color_index", "0")]);
    let colors = monte_material_colors(&me).unwrap();
    assert_eq!(colors.body_reg0, None);
    assert_eq!(colors.cloth_reg0, None);
    assert!(colors.cloth_reg1_reg2.is_none());
    let ma = object("NPCMonteMA", &[("npc_body_color_index", "0"), ("npc_cloth_color_index", "0")]);
    let colors = monte_material_colors(&ma).unwrap();
    assert!(colors.body_reg0.is_some());
    assert!(colors.cloth_reg1_reg2.is_some());
    let mut fuku = material("_fuku_mat");
    apply_monte_material_color(&mut fuku, &ma);
    let pair = colors.cloth_reg1_reg2.unwrap();
    assert_eq!(fuku.tev_colors[1], pair[0]);
    assert_eq!(fuku.tev_colors[2], pair[1]);
    let mut hand = material("_hand_mat");
    apply_monte_material_color(&mut hand, &ma);
    assert_eq!(hand.tev_colors[0], colors.body_reg0.unwrap());
    assert!(monte_material_colors(&object("NPCMonteMA", &[("npc_body_color_index", "0")])).is_none());
    assert!(monte_material_colors(&object("NPCMareMA", &[])).is_none());
}

#[test]
fn register_pairs_need_both_tables() {
    let reg1 = [[1, 1, 1, 1], [2, 2, 2, 2]];
    let reg2 = [[3, 3, 3, 3]];
    assert_eq!(paired_color(&reg1, &reg2, 0), Some([[1, 1, 1, 1], [3, 3, 3, 3]]));
    assert_eq!(paired_color(&reg1, &reg2, 1), None);
}

#[test]
fn nozzle_boxes_show_their_item_colour() {
    let rocket = object("NozzleBox", &[("item", "Rocket_Nozzle_Item")]);
    assert_eq!(nozzle_box_tev_reg1_color(&rocket), Some([255, 0, 0, 100]));
    let plain = object("nozzlebox", &[]);
    assert_eq!(nozzle_box_tev_reg1_color(&plain), Some([255, 255, 255, 100]));
    let mut by_class = object("Item", &[("a", "back_nozzle_item"), ("b", "normal_nozzle_item")]);
    by_class.class_name = Some("NozzleBox".to_string());
    assert_eq!(nozzle_box_tev_reg1_color(&by_class), Some([90, 90, 120, 100]));
    assert_eq!(nozzle_box_tev_reg1_color(&object("Coin", &[])), None);
}

#[test]
fn accessories_take_colour_changes_and_pollution() {
    let spec = NpcAccessorySpec {
        color_index_channel: 0,
        color_changes: vec![
            NpcColorChange {
                material_name: "_hat".to_string(),
                mode: 0,
                colors0: vec![[10, 20, 30, 40], [50, 60, 70, 80]],
                colors1: Vec::new(),
            },
            NpcColorChange {
                material_name: "_HAT".to_string(),
                mode: 2,
                colors0: vec![[1, 1, 1, 1], [2, 2, 2, 2]],
                colors1: vec![[5, 5, 5, 5]],
            },
        ],
        uses_pollution: true,
    };
    let npc = object("NPCMonteMA", &[("npc_pollution_amount", "7")]);
    let mut hat = material("_hat");
    apply_npc_accessory_material_color(&mut hat, &npc, &spec, Some(1));
    assert_eq!(hat.material_colors[0], [50, 60, 70, 80]);
    assert_eq!(hat.tev_colors[1], [2, 2, 2, 2]);
    assert_eq!(hat.tev_colors[2], [0; 4]);
    assert_eq!(hat.tev_k_colors[0], [255, 255, 255, 7]);
    let mut untouched = material("_hat");
    apply_npc_accessory_material_color(&mut untouched, &object("NPCPeach", &[]), &spec, None);
    assert_eq!(untouched.material_colors[0], [1, 2, 3, 4]);
    assert_eq!(untouched.tev_k_colors[0], [9; 4]);
}
