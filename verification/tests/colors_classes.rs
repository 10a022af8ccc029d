use scene_builder::classes::{
    get_argo_class_titles, plan_class, ArgoProperty, ClassEntry, ClassEntryError, ParseDrawPlugin,
};
use scene_builder::colors::{
    color_entries_in_bounds, hex_color_in_bounds, hex_pair, load_color_map, parse_hex_color, ColorEntry,
    InvalidColor, Rgb,
};
use scene_builder::registry::KeyRegistry;

#[test]
fn hex_pair_follows_from_str_radix() {
    for s in ["00", "ff", "FF", "7a", "+f", "-1", "g0", "0g", "++", " 1", "+-"] {
        let b = s.as_bytes();
        assert_eq!(hex_pair(b[0], b[1]), u8::from_str_radix(s, 16).ok(), "input {s:?}");
    }
}

#[test]
fn parse_colors() {
    assert_eq!(parse_hex_color("#ff8000"), Ok(Rgb { r: 255, g: 128, b: 0 }));
    assert_eq!(parse_hex_color("##0A0b0C"), Ok(Rgb { r: 10, g: 11, b: 12 }));
    assert_eq!(parse_hex_color("123456"), Ok(Rgb { r: 0x12, g: 0x34, b: 0x56 }));
    assert_eq!(parse_hex_color("#+f0000"), Ok(Rgb { r: 15, g: 0, b: 0 }));
    assert_eq!(parse_hex_color("#ffffffEXTRA"), Ok(Rgb { r: 255, g: 255, b: 255 }));
    assert_eq!(parse_hex_color("#zz0000"), Err(InvalidColor));
    assert_eq!(parse_hex_color("#00zz00"), Err(InvalidColor));
}

#[test]
fn color_bounds() {
    assert!(hex_color_in_bounds("#123456"));
    assert!(!hex_color_in_bounds("#12345"));
    assert!(!hex_color_in_bounds("#1"));
    // The first channel fails to read before the short text would be sliced.
    assert!(hex_color_in_bounds("#zz"));
    // A multi-byte character across a channel boundary cannot be sliced.
    assert!(!hex_color_in_bounds("#1é345"));
    // A two-byte character as the whole first channel is sliced fine and then fails to read.
    assert!(hex_color_in_bounds("#é2345"));
    assert_eq!(parse_hex_color("#é2345"), Err(InvalidColor));
}

fn entry(name: &str, color: &str) -> ColorEntry {
    ColorEntry { name: name.to_string(), color: color.to_string() }
}

#[test]
fn load_color_map_later_entries_win() {
    let entries = vec![entry("label", "#ffffff"), entry("class", "#102030"), entry("label", "#000001")];
    assert!(color_entries_in_bounds(&entries));
    let map = load_color_map(&entries).expect("valid");
    assert_eq!(map.0.get("label"), Some(Rgb { r: 0, g: 0, b: 1 }));
    assert_eq!(map.0.get("class"), Some(Rgb { r: 0x10, g: 0x20, b: 0x30 }));
    assert_eq!(map.0.get("happy"), None);
}

#[test]
fn load_color_map_stops_at_first_bad_colour() {
    let entries = vec![entry("a", "#ffffff"), entry("b", "#nothex"), entry("c", "#1")];
    // The short entry after the bad one is never reached.
    assert!(color_entries_in_bounds(&entries));
    assert_eq!(load_color_map(&entries).err(), Some(InvalidColor));
    let short_first = vec![entry("c", "#1")];
    assert!(!color_entries_in_bounds(&short_first));
}

fn prop(argo: bool, class_id: Option<&str>, title: Option<&str>) -> ArgoProperty {
    ArgoProperty {
        has_argo_query: argo,
        where_class_id: class_id.map(|s| s.to_string()),
        title: title.map(|s| s.to_string()),
    }
}

fn class_entry(key: Option<&str>, super_id: Option<Option<&str>>, props: Vec<ArgoProperty>) -> ClassEntry {
    ClassEntry {
        key: key.map(|s| s.to_string()),
        has_class_id: false,
        super_class_id: super_id.map(|o| o.map(|s| s.to_string())),
        title: None,
        properties: props,
    }
}

#[test]
fn argo_titles() {
    let e = class_entry(
        Some("k"),
        None,
        vec![
            prop(true, Some("C1"), Some("owns")),
            prop(false, Some("C2"), Some("ignored")),
            prop(true, None, Some("no class")),
            prop(true, Some("C3"), None),
        ],
    );
    assert_eq!(
        get_argo_class_titles(&e),
        vec![("C1".to_string(), "owns".to_string()), ("C3".to_string(), "unnamed".to_string())]
    );
}

#[test]
fn plan_class_errors() {
    let r = KeyRegistry::new();
    assert_eq!(plan_class(&r, &class_entry(None, None, vec![])).err(), Some(ClassEntryError::MissingKey));
    let mut obj = class_entry(Some("o"), None, vec![]);
    obj.has_class_id = true;
    assert_eq!(plan_class(&r, &obj).err(), Some(ClassEntryError::NotAClass));
    assert_eq!(
        plan_class(&r, &class_entry(Some("k"), Some(None), vec![])).err(),
        Some(ClassEntryError::SuperclassNotString)
    );
}

#[test]
fn plan_class_resolves_superclass() {
    let mut r = KeyRegistry::new();
    r.0.insert("Base", 7);
    let mut e = class_entry(Some("Sub"), Some(Some("Base")), vec![prop(true, Some("Other"), Some("uses"))]);
    e.title = Some("Sub class".to_string());
    let plan = plan_class(&r, &e).expect("class");
    assert_eq!(plan.key, "Sub");
    assert_eq!(plan.title, "Sub class");
    assert_eq!(plan.superclass, Some(7));
    assert_eq!(plan.y_offset, -4);
    assert_eq!(plan.associations.len(), 1);
    assert_eq!(plan.associations[0].from_key, "Sub");
    assert_eq!(plan.associations[0].to_class_id, "Other");
    assert_eq!(plan.associations[0].title, "uses");

    let root = plan_class(&r, &class_entry(Some("Root"), Some(Some("Missing")), vec![])).expect("class");
    assert_eq!(root.superclass, None);
    assert_eq!(root.y_offset, 0);
    assert_eq!(root.title, "unnamed");
}

#[test]
fn parse_draw_plugin_settings() {
    let p = ParseDrawPlugin;
    assert_eq!(p.layout_spacing(), 4);
    assert!(p.should_parse_classes(true, false));
    assert!(!p.should_parse_classes(true, true));
    assert!(!p.should_parse_classes(false, false));
}

#[test]
fn every_channel_value_reads_back() {
    for v in 0..=255u8 {
        let upper = format!("#{v:02X}{v:02X}{v:02X}");
        let lower = format!("{v:02x}0000");
        assert_eq!(parse_hex_color(&upper), Ok(Rgb { r: v, g: v, b: v }));
        assert_eq!(parse_hex_color(&lower), Ok(Rgb { r: v, g: 0, b: 0 }));
    }
}
