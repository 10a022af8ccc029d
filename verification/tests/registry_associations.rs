use scene_builder::associations::{
    connected_visuals, fnv1a, hue_from_hash, pastel_hue, resolve_ends, z_offset_step, AssociationEnds,
    PendingAssociation, ResolvedAssociation,
};
use scene_builder::registry::{KeyRegistry, StringMap};

#[test]
fn registry_read_after_write() {
    let mut r = KeyRegistry::new();
    assert_eq!(r.0.get("A"), None);
    r.0.insert("A", 10);
    r.0.insert("B", 20);
    assert_eq!(r.0.get("A"), Some(10));
    assert_eq!(r.0.get("B"), Some(20));
    r.0.insert("A", 30);
    assert_eq!(r.0.get("A"), Some(30));
    assert_eq!(r.0.get("B"), Some(20));
    assert_eq!(r.0.get("C"), None);
}

#[test]
fn string_map_holds_any_copy_value() {
    let mut m: StringMap<(u8, bool)> = StringMap::new();
    m.insert("x", (1, true));
    m.insert("", (2, false));
    assert_eq!(m.get(""), Some((2, false)));
    assert_eq!(m.get("x"), Some((1, true)));
}

fn assoc(from: u64, to: u64, base: u64) -> ResolvedAssociation {
    ResolvedAssociation {
        from_ent: from,
        to_ent: to,
        assoc_beam_entity: base,
        start_beam_entity: base + 1,
        start_sphere_entity: base + 2,
        end_beam_entity: base + 3,
        end_sphere_entity: base + 4,
        arrow_entity: base + 5,
        label_entity: base + 6,
        z_offset_step: 0,
    }
}

#[test]
fn all_visual_entities_leaves_out_label() {
    let a = assoc(1, 2, 100);
    assert_eq!(a.all_visual_entities(), [100, 101, 102, 103, 104, 105]);
}

#[test]
fn connected_visuals_of_both_ends() {
    let list = vec![assoc(1, 2, 100), assoc(3, 4, 200), assoc(5, 1, 300)];
    assert_eq!(
        connected_visuals(&list, 1),
        vec![100, 101, 102, 103, 104, 105, 300, 301, 302, 303, 304, 305]
    );
    assert_eq!(connected_visuals(&list, 4), vec![200, 201, 202, 203, 204, 205]);
    assert!(connected_visuals(&list, 9).is_empty());
}

fn pending(from: &str, to: &str) -> PendingAssociation {
    PendingAssociation { from_key: from.to_string(), to_class_id: to.to_string(), title: "t".to_string() }
}

#[test]
fn resolve_ends_variants() {
    let mut r = KeyRegistry::new();
    r.0.insert("a", 1);
    r.0.insert("b", 2);
    assert_eq!(resolve_ends(&r, &pending("a", "b")), AssociationEnds::Resolved { from_ent: 1, to_ent: 2 });
    assert_eq!(resolve_ends(&r, &pending("x", "b")), AssociationEnds::MissingSource);
    assert_eq!(resolve_ends(&r, &pending("x", "y")), AssociationEnds::MissingSource);
    assert_eq!(resolve_ends(&r, &pending("a", "y")), AssociationEnds::MissingTarget);
}

#[test]
fn fnv1a_known_values() {
    assert_eq!(fnv1a(""), 0xcbf29ce484222325);
    assert_eq!(fnv1a("a"), 0xaf63dc4c8601ec8c);
    assert_eq!(fnv1a("foobar"), 0x85944171f73967e8);
}

#[test]
fn z_offset_steps() {
    assert_eq!(z_offset_step(""), 37);
    assert_eq!(z_offset_step("a"), 996);
    assert_eq!(z_offset_step("has many"), 198);
}

#[test]
fn hues() {
    assert_eq!(hue_from_hash(0), 0);
    assert_eq!(hue_from_hash(725), 5);
    assert_eq!(hue_from_hash(u64::MAX), (u64::MAX % 360) as u16);
    let h1 = pastel_hue("owns");
    assert!(h1 < 360);
    assert_eq!(h1, pastel_hue("owns"));
    let distinct: std::collections::HashSet<u16> =
        ["owns", "uses", "has many", "belongs to", "refers to"].iter().map(|s| pastel_hue(s)).collect();
    assert!(distinct.len() > 1);
}
