use scene_builder::text::{parse_u16, split_char};
use scene_builder::url_hash::{sync_url_hash, HashPart, UrlHash, UrlListenerPlugin};

fn part(fk: Option<&str>, page: &str, tab: u16) -> (Option<String>, String, u16) {
    (fk.map(|s| s.to_string()), page.to_string(), tab)
}

fn parts(h: &UrlHash) -> Vec<(Option<String>, String, u16)> {
    h.hash_parts
        .iter()
        .map(|p| (p.foreign_key.clone(), p.page_key.clone(), p.tab_num))
        .collect()
}

#[test]
fn parse_three_field_segment() {
    let h = UrlHash::parse("#fk.page.3");
    assert_eq!(parts(&h), vec![part(Some("fk"), "page", 3)]);
}

#[test]
fn parse_mixed_segments_skips_empty_ones() {
    let h = UrlHash::parse("#a.b.2//c.7/d/");
    assert_eq!(
        parts(&h),
        vec![part(Some("a"), "b", 2), part(None, "c", 7), part(None, "d", 0)]
    );
}

#[test]
fn parse_strips_one_hash_mark_only() {
    assert_eq!(parts(&UrlHash::parse("##x")), vec![part(None, "#x", 0)]);
    assert_eq!(parts(&UrlHash::parse("x")), vec![part(None, "x", 0)]);
}

#[test]
fn parse_empty_hash_has_no_parts() {
    assert!(UrlHash::parse("").hash_parts.is_empty());
    assert!(UrlHash::parse("#").hash_parts.is_empty());
    assert!(UrlHash::parse("///").hash_parts.is_empty());
}

#[test]
fn parse_too_many_fields_gives_empty_part() {
    assert_eq!(parts(&UrlHash::parse("a.b.c.d")), vec![part(None, "", 0)]);
}

#[test]
fn parse_bad_tab_numbers_default_to_zero() {
    assert_eq!(parts(&UrlHash::parse("p.x")), vec![part(None, "p", 0)]);
    assert_eq!(parts(&UrlHash::parse("p.70000")), vec![part(None, "p", 0)]);
    assert_eq!(parts(&UrlHash::parse("p.-1")), vec![part(None, "p", 0)]);
    assert_eq!(parts(&UrlHash::parse("p.+65535")), vec![part(None, "p", 65535)]);
    assert_eq!(parts(&UrlHash::parse("p.")), vec![part(None, "p", 0)]);
}

#[test]
fn hash_part_parse_single_segment() {
    let p = HashPart::parse("f.g.12");
    assert_eq!(p.foreign_key.as_deref(), Some("f"));
    assert_eq!(p.page_key, "g");
    assert_eq!(p.tab_num, 12);
    let d = HashPart::default();
    assert!(d.same_as(&HashPart::parse("a.b.c.d")));
}

#[test]
fn parse_u16_follows_std() {
    for s in ["", "+", "0", "42", "+42", "-1", "65535", "65536", "1x", "00017", "99999999999"] {
        assert_eq!(parse_u16(s), s.parse::<u16>().ok(), "input {s:?}");
    }
}

#[test]
fn split_char_keeps_empty_pieces() {
    assert_eq!(split_char("a..b", '.'), vec!["a", "", "b"]);
    assert_eq!(split_char("", '/'), vec![""]);
    assert_eq!(split_char("/x/", '/'), vec!["", "x", ""]);
    assert_eq!(split_char("héllo/wörld", '/'), vec!["héllo", "wörld"]);
}

#[test]
fn joined_hash_has_parts_of_both_sides() {
    let left = UrlHash::parse("#a.1/b");
    let right = UrlHash::parse("c.d.2");
    let joined = UrlHash::parse("#a.1/b/c.d.2");
    let mut expected = parts(&left);
    expected.extend(parts(&right));
    assert_eq!(parts(&joined), expected);
}

#[test]
fn sync_reports_only_changes() {
    let current = UrlHash::parse("#a/b");
    assert!(sync_url_hash(&current, None).is_none());
    assert!(sync_url_hash(&current, Some("a//b")).is_none());
    let next = sync_url_hash(&current, Some("#a/c")).expect("changed");
    assert_eq!(parts(&next), vec![part(None, "a", 0), part(None, "c", 0)]);
}

#[test]
fn seeded_hash_uses_initial_value() {
    let plugin = UrlListenerPlugin { initial_hash: Some("#x.y.1".to_string()) };
    assert_eq!(parts(&plugin.seeded_hash()), vec![part(Some("x"), "y", 1)]);
    let none = UrlListenerPlugin { initial_hash: None };
    assert!(none.seeded_hash().same_as(&UrlHash::default()));
}

#[test]
fn written_parts_parse_back() {
    let written = vec![part(Some("fk"), "page", 2), part(None, "home", 0), part(Some(""), "x", 65535)];
    let text: Vec<String> = written
        .iter()
        .map(|(fk, page, tab)| match fk {
            Some(f) => format!("{f}.{page}.{tab}"),
            None => format!("{page}.{tab}"),
        })
        .collect();
    let raw = format!("#{}", text.join("/"));
    assert_eq!(parts(&UrlHash::parse(&raw)), written);
    assert!(UrlHash::parse("").hash_parts.is_empty());
    assert!(UrlHash::parse("#").hash_parts.is_empty());
}
