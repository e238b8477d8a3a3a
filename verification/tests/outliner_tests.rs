use sms_editor::outliner::{
    normalized_raw_path, OutlinerNode, OutlinerNodeKind, OutlinerRender, WorldHierarchyMember,
};

fn node(key: &str, search: &str, object_id: Option<&str>, children: Vec<OutlinerNode>) -> OutlinerNode {
    OutlinerNode {
        key: key.to_string(),
        label: key.to_string(),
        detail: String::new(),
        search_text: search.to_string(),
        kind: if object_id.is_some() { OutlinerNodeKind::Object } else { OutlinerNodeKind::Group },
        object_id: object_id.map(str::to_string),
        world_member: None,
        children,
    }
}

fn stage() -> OutlinerNode {
    node(
        "stage:dolpic0",
        "dolpic0",
        None,
        vec![
            node(
                "manager",
                "hamukurimanager",
                Some("manager"),
                vec![node("actor", "hamukuri", Some("actor"), Vec::new())],
            ),
            node("coins", "map objects", None, vec![node("coin", "coin", Some("coin"), Vec::new())]),
            OutlinerNode {
                key: "stage-member:music".to_string(),
                label: "Stage Music".to_string(),
                detail: "Game default".to_string(),
                search_text: "stage music audio bgm msstageinfo game default".to_string(),
                kind: OutlinerNodeKind::StageMember,
                object_id: None,
                world_member: Some(WorldHierarchyMember::StageMusic),
                children: Vec::new(),
            },
        ],
    )
}

#[test]
fn subtrees_report_the_objects_they_hold() {
    let tree = stage();
    assert_eq!(tree.object_count(), 3);
    assert!(tree.contains_object("actor"));
    assert!(tree.children[0].contains_object("actor"));
    assert!(tree.children[0].contains_object("manager"));
    assert!(!tree.children[1].contains_object("actor"));
    assert!(!tree.contains_object("missing"));
}

#[test]
fn a_reveal_opens_only_the_ancestors_of_its_object() {
    let tree = stage();
    let render = OutlinerRender {
        selected_id: None,
        selected_world_member: None,
        force_open: false,
        reveal_id: Some("actor"),
    };
    assert!(render.opens_for_reveal(&tree));
    assert!(render.opens_for_reveal(&tree.children[0]));
    assert!(!render.opens_for_reveal(&tree.children[0].children[0]));
    assert!(!render.opens_for_reveal(&tree.children[1]));
    let idle = OutlinerRender { reveal_id: None, ..render };
    assert!(!idle.opens_for_reveal(&tree));
}

#[test]
fn a_search_keeps_matching_rows_and_their_ancestors() {
    let kept = stage().filtered("coin").unwrap();
    assert_eq!(kept.children.len(), 1);
    assert_eq!(kept.children[0].key, "coins");
    assert_eq!(kept.children[0].children[0].key, "coin");
    assert_eq!(kept.object_count(), 1);
    assert!(stage().filtered("shine").is_none());
    let everything = stage().filtered("").unwrap();
    assert_eq!(everything.object_count(), 3);
}

#[test]
fn a_matching_row_keeps_everything_under_it() {
    let kept = stage().filtered("manager").unwrap();
    assert_eq!(kept.children.len(), 1);
    assert_eq!(kept.children[0].children.len(), 1);
    assert!(kept.contains_object("actor"));
}

#[test]
fn the_stage_music_row_survives_its_own_search() {
    let kept = stage().filtered("msstageinfo").unwrap();
    assert_eq!(kept.key, "stage:dolpic0");
    assert_eq!(kept.children.len(), 1);
    assert_eq!(kept.children[0].world_member, Some(WorldHierarchyMember::StageMusic));
    assert_eq!(kept.object_count(), 0);
}

#[test]
fn raw_paths_show_with_forward_slashes() {
    assert_eq!(normalized_raw_path(b"scene\\map\\pollution\\H_ma_rak.bti"), "scene/map/pollution/H_ma_rak.bti");
    assert_eq!(normalized_raw_path(b"map/\xff.bmd"), "map/\u{fffd}.bmd");
}

fn find_object<'a>(nodes: &'a [OutlinerNode], id: &str) -> Option<&'a OutlinerNode> {
    nodes.iter().find_map(|node| {
        if node.object_id.as_deref() == Some(id) {
            Some(node)
        } else {
            find_object(&node.children, id)
        }
    })
}

#[test]
fn nodes_report_whether_a_subtree_holds_an_object() {
    // The stage root with a HamuKuri manager that owns its nearby actor.
    let roots = vec![node(
        "stage:bianco3",
        "bianco3",
        None,
        vec![node(
            "object:manager",
            "manager hamukurimanager",
            Some("manager"),
            vec![node("object:actor", "actor hamukuri", Some("actor"), Vec::new())],
        )],
    )];
    let stage = &roots[0];
    assert!(stage.contains_object("actor"));
    let manager_node = find_object(&roots, "manager").expect("manager node");
    assert!(manager_node.contains_object("actor"));
    assert!(manager_node.contains_object("manager"));
    assert!(!manager_node.contains_object("missing"));

    let reveal_manager = OutlinerRender {
        selected_id: Some("manager"),
        selected_world_member: None,
        force_open: false,
        reveal_id: Some("manager"),
    };
    assert!(!reveal_manager.opens_for_reveal(manager_node));

    let reveal_actor = OutlinerRender {
        selected_id: Some("actor"),
        selected_world_member: None,
        force_open: false,
        reveal_id: Some("actor"),
    };
    assert!(reveal_actor.opens_for_reveal(stage));
    assert!(reveal_actor.opens_for_reveal(manager_node));
}

#[test]
fn filtering_keeps_matching_objects_and_their_ancestors() {
    // The stage root with a coin and a shine, and its stage music row.
    let tree = || {
        vec![node(
            "stage:bianco3",
            "bianco3",
            None,
            vec![
                node("object:coin", "coin coin", Some("coin"), Vec::new()),
                node("object:shine", "shine shine", Some("shine"), Vec::new()),
                node("stage-member:music", "stage music audio bgm msstageinfo game default", None, Vec::new()),
            ],
        )]
    };
    let total_objects: usize = tree().iter().map(OutlinerNode::object_count).sum();
    let roots: Vec<OutlinerNode> = tree().into_iter().filter_map(|root| root.filtered("shine")).collect();
    let visible_objects: usize = roots.iter().map(OutlinerNode::object_count).sum();
    assert_eq!(total_objects, 2);
    assert_eq!(visible_objects, 1);
    assert!(find_object(&roots, "shine").is_some());
    assert!(find_object(&roots, "coin").is_none());
}

#[test]
fn a_search_never_shows_more_objects_than_the_tree_holds() {
    for needle in ["", "coin", "hamukuri", "manager", "msstageinfo", "nothing"] {
        let kept = stage().filtered(needle);
        if let Some(kept) = kept {
            assert_eq!(kept.key, "stage:dolpic0");
            assert!(kept.object_count() <= stage().object_count());
        }
    }
    assert_eq!(stage().filtered("").unwrap().object_count(), stage().object_count());
}
