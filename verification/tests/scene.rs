use scene_builder::argonaut::{argonaut_entries, argonaut_entries_from_text, str_field, ArgonautFields, ArgonautReadError};
use scene_builder::assets::stack_cubemap_faces;
use scene_builder::collapse::{FadeGraph, FadeTransition, SceneEntity};
use scene_builder::visuals::{
    emissive_level, highlight_step, Glow, leaf_visual_action, restore_step, ClassData, Collapsed, EmissiveLevel,
    HighlightStep, LeafVisualAction, RestoreStep,
};

fn ent(mat: bool, children: Option<Vec<usize>>, subs: Option<Vec<usize>>) -> SceneEntity {
    SceneEntity { entity: 0, has_material: mat, children, subclasses: subs }
}

/// Class 0 (with beam 1) has subclass 2; class 2 has mesh child 3 (no
/// material) with label child 4, and subclass 5 which is also a child.
fn graph() -> FadeGraph {
    FadeGraph {
        nodes: vec![
            ent(true, Some(vec![1, 2]), Some(vec![2])),
            ent(true, None, None),
            ent(true, Some(vec![3, 5]), Some(vec![5])),
            ent(false, Some(vec![4]), None),
            ent(true, None, None),
            ent(true, None, Some(vec![])),
        ],
    }
}

#[test]
fn fade_collects_subtree_of_subclasses() {
    let g = graph();
    // 2 itself; child 3 has no material but its child 4 does; child 5 is
    // collected as a child and again under it and as a subclass.
    assert_eq!(g.collect_fadeable_descendants(0), vec![2, 4, 4, 5, 5, 5]);
    // The beam 1 hangs under class 0 but under none of its subclasses.
    assert!(!g.collect_fadeable_descendants(0).contains(&1));
    assert!(g.collect_fadeable_descendants(5).is_empty());
    assert!(g.collect_fadeable_descendants(42).is_empty());
    let mut out = vec![9];
    g.collect_class_and_descendants(3, &mut out);
    assert_eq!(out, vec![9, 4, 4]);
}

#[test]
fn fade_transition() {
    let out = FadeTransition::for_collapsed(true);
    assert!(out.fade_out && !out.reveal_first);
    assert_eq!(out.sphere_color_key(), "happy");
    let back = FadeTransition::for_collapsed(false);
    assert!(!back.fade_out && back.reveal_first);
    assert_eq!(back.sphere_color_key(), "unhappy");
}

#[test]
fn emissive_and_restore() {
    assert_eq!(emissive_level(true, true), EmissiveLevel::SelectedHovered);
    assert_eq!(emissive_level(true, false), EmissiveLevel::Selected);
    assert_eq!(emissive_level(false, true), EmissiveLevel::Hovered);
    assert_eq!(emissive_level(false, false), EmissiveLevel::Off);
    assert_eq!(
        highlight_step(true, false, false, true),
        HighlightStep { record_original: true, level: Some(EmissiveLevel::Hovered) }
    );
    assert_eq!(
        highlight_step(true, true, true, false),
        HighlightStep { record_original: false, level: Some(EmissiveLevel::Selected) }
    );
    assert_eq!(highlight_step(false, false, true, true), HighlightStep { record_original: false, level: None });
    assert_eq!(restore_step(true), RestoreStep::KeepSelectedGlow);
    assert_eq!(restore_step(false), RestoreStep::RestoreOriginal);
}

#[test]
fn leaf_connector_follows_subclasses() {
    let fresh = ClassData::new(11);
    assert_eq!(leaf_visual_action(false, &fresh), LeafVisualAction::Keep);
    let a = leaf_visual_action(true, &fresh);
    assert_eq!(a, LeafVisualAction::SpawnConnector);
    let with = fresh.after(a, (20, 21));
    assert_eq!(with, ClassData { beam_entity: 11, bottom_beam_entity: Some(20), collapse_sphere_entity: Some(21) });
    assert_eq!(leaf_visual_action(true, &with), LeafVisualAction::Keep);
    let r = leaf_visual_action(false, &with);
    assert_eq!(r, LeafVisualAction::RemoveConnector { bottom_beam: 20, sphere: Some(21) });
    assert_eq!(with.after(r, (0, 0)), fresh);
}

#[test]
fn collapsed_toggles() {
    assert_eq!(Collapsed(false).toggled(), Collapsed(true));
    assert_eq!(Collapsed(true).toggled(), Collapsed(false));
}

#[test]
fn cubemap_faces_stack_in_order() {
    let faces = vec![vec![1u8, 2], vec![3], vec![], vec![4, 5, 6], vec![7], vec![8]];
    assert_eq!(stack_cubemap_faces(&faces), vec![1, 2, 3, 4, 5, 6, 7, 8]);
}

#[test]
fn argonaut_entries_skip_keyless_objects() {
    let f = |k: Option<&str>, c: Option<&str>, s: Option<&str>| ArgonautFields {
        key: k.map(|x| x.to_string()),
        class_id: c.map(|x| x.to_string()),
        super_class_id: s.map(|x| x.to_string()),
        data: serde_json::Value::Bool(true),
    };
    let entries = argonaut_entries(vec![
        f(Some("A"), None, None),
        f(None, Some("A"), None),
        f(Some("b"), Some("A"), Some("S")),
    ]);
    assert_eq!(entries.len(), 2);
    assert_eq!(entries[0].key, "A");
    assert_eq!(entries[0].class_id, None);
    assert_eq!(entries[1].key, "b");
    assert_eq!(entries[1].class_id.as_deref(), Some("A"));
    assert_eq!(entries[1].super_class_id.as_deref(), Some("S"));
    assert_eq!(entries[1].data, serde_json::Value::Bool(true));
}

#[test]
fn hover_then_unhover_restores_own_glow() {
    let g = Glow { emissive: 7u32, original: None };
    let lit = g.highlighted(highlight_step(true, false, false, true), 50);
    assert_eq!((lit.emissive, lit.original), (50, Some(7)));
    let back = lit.restored(restore_step(false), 99);
    assert_eq!((back.emissive, back.original), (7, None));
    // A selected piece drops back to the selected glow and keeps its own.
    let sel = g.highlighted(highlight_step(true, false, true, true), 80).restored(restore_step(true), 60);
    assert_eq!((sel.emissive, sel.original), (60, Some(7)));
    // Without a material nothing is remembered or changed.
    let none = g.highlighted(highlight_step(false, false, false, true), 50);
    assert_eq!((none.emissive, none.original), (7, None));
}

#[test]
fn argonaut_text_reads_keyed_objects() {
    let text = r#"[{"key":"a","classId":"c1"},{"nokey":1},{"key":2},{"key":"b","superClassId":"a"}]"#;
    let entries = argonaut_entries_from_text(text).unwrap();
    let ids: Vec<_> = entries.iter().map(|e| (e.key.clone(), e.class_id.clone(), e.super_class_id.clone())).collect();
    assert_eq!(
        ids,
        vec![
            ("a".to_string(), Some("c1".to_string()), None),
            ("b".to_string(), None, Some("a".to_string())),
        ]
    );
    assert_eq!(entries[0].data["classId"], "c1");
    assert!(matches!(argonaut_entries_from_text("{\"key\":\"a\"}"), Err(ArgonautReadError::NotArray)));
    assert!(matches!(argonaut_entries_from_text("[oops"), Err(ArgonautReadError::Parse(_))));
    assert!(argonaut_entries_from_text("[]").unwrap().is_empty());
}

#[test]
fn str_field_reads_only_strings() {
    let v: serde_json::Value = serde_json::from_str(r#"{"key":"a","n":1,"inner":{"key":"b"}}"#).unwrap();
    assert_eq!(str_field(&v, "key"), Some("a".to_string()));
    assert_eq!(str_field(&v, "n"), None);
    assert_eq!(str_field(&v, "missing"), None);
    let arr: serde_json::Value = serde_json::from_str(r#"["key"]"#).unwrap();
    assert_eq!(str_field(&arr, "key"), None);
    let entries = argonaut_entries_from_text(r#"[{"key":"a","extra":[1,2]}]"#).unwrap();
    let whole: serde_json::Value = serde_json::from_str(r#"{"key":"a","extra":[1,2]}"#).unwrap();
    assert_eq!(entries[0].data, whole);
}
