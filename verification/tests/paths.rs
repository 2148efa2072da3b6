use paradox_api::path::{same_bytes, same_text, trim_slash, trim_slashes, Parts};
use paradox_api::route::{key_text, sub_api, ApiRoute, SubApi};

fn parts_of(mut parts: Parts<'_>) -> Vec<String> {
    let mut all = Vec::new();
    loop {
        match parts.next() {
            None => return all,
            Some(part) => all.push(part.to_owned()),
        }
    }
}

/// A short text for a route.
fn shown(path: &str) -> String {
    match ApiRoute::from_str(path) {
        Ok(ApiRoute::Tables) => "tables".to_owned(),
        Ok(ApiRoute::TableByName(name)) => format!("def {}", name),
        Ok(ApiRoute::AllTableRows(name)) => format!("all {}", name),
        Ok(ApiRoute::TableRowsByPK(name, key)) => format!("key {} {}", name, key),
        Ok(ApiRoute::Locale(rest)) => format!("locale {}", parts_of(rest).join("|")),
        Ok(ApiRoute::OpenApiV0) => "openapi".to_owned(),
        Err(()) => "none".to_owned(),
    }
}

#[test]
fn parts_are_what_stands_between_slashes() {
    assert_eq!(parts_of(Parts::new("a/b/c")), vec!["a", "b", "c"]);
    assert_eq!(parts_of(Parts::new("a//c/")), vec!["a", "", "c", ""]);
    assert_eq!(parts_of(Parts::new("")), vec![""]);
    assert_eq!(parts_of(Parts::new("/")), vec!["", ""]);
    assert_eq!(parts_of(Parts::new("ä/ß€")), vec!["ä", "ß€"]);
}

#[test]
fn no_part_comes_after_the_last() {
    let mut parts = Parts::new("a");
    assert_eq!(parts.next(), Some("a"));
    assert_eq!(parts.next(), None);
    assert_eq!(parts.next(), None);
}

#[test]
fn splitting_and_joining_give_the_text_back() {
    for text in ["", "/", "v0/tables", "a//b/", "/ä/ö"] {
        assert_eq!(parts_of(Parts::new(text)).join("/"), text);
    }
}

#[test]
fn slashes_are_trimmed_at_the_start_only() {
    assert_eq!(trim_slashes("///a/b/"), "a/b/");
    assert_eq!(trim_slashes("///"), "");
    assert_eq!(trim_slashes("ä/"), "ä/");
    assert_eq!(trim_slash("//a"), "/a");
    assert_eq!(trim_slash("a/"), "a/");
    assert_eq!(trim_slash(""), "");
}

#[test]
fn texts_and_bytes_are_compared() {
    assert!(same_text("tables", "tables"));
    assert!(same_text("", ""));
    assert!(!same_text("tables", "table"));
    assert!(!same_text("tables", "Tables"));
    assert!(!same_text("ä", "a"));
    assert!(same_bytes(&[1, 2], &[1, 2]));
    assert!(!same_bytes(&[1, 2], &[1, 3]));
    assert!(!same_bytes(&[1, 2], &[1]));
}

#[test]
fn routes_of_version_zero() {
    assert_eq!(shown("/v0/tables"), "tables");
    assert_eq!(shown("/v0/tables/Objects"), "def Objects");
    assert_eq!(shown("/v0/tables/Objects/def"), "def Objects");
    assert_eq!(shown("/v0/tables/Objects/all"), "all Objects");
    assert_eq!(shown("/v0/tables/Objects/14"), "key Objects 14");
    assert_eq!(shown("/v0/openapi.json"), "openapi");
    assert_eq!(shown("/v0/locale"), "locale ");
    assert_eq!(shown("/v0/locale/Missions/5/$all"), "locale Missions|5|$all");
}

#[test]
fn routes_of_version_one() {
    assert_eq!(shown("/v1/tables"), "tables");
    assert_eq!(shown("/v1/tables/Objects"), "none");
    assert_eq!(shown("/v1/locale"), "none");
    assert_eq!(shown("/v1"), "none");
}

#[test]
fn paths_that_no_route_stands_for() {
    assert_eq!(shown(""), "none");
    assert_eq!(shown("/"), "none");
    assert_eq!(shown("/v0"), "none");
    assert_eq!(shown("/v2/tables"), "none");
    assert_eq!(shown("/v0/Tables"), "none");
    assert_eq!(shown("/v0/tables/Objects/def/more"), "none");
    assert_eq!(shown("/v0/tables/Objects/all/more"), "none");
    assert_eq!(shown("/v0/tables/Objects/14/more"), "none");
    assert_eq!(shown("/v0/openapi.json/more"), "none");
}

#[test]
fn a_slash_at_the_end_counts() {
    assert_eq!(shown("/v0/tables/"), "def ");
    assert_eq!(shown("/v0/tables/Objects/"), "key Objects ");
    assert_eq!(shown("/v0/openapi.json/"), "none");
    assert_eq!(shown("/v0/locale/"), "locale ");
    match ApiRoute::from_str("/v0/locale/") {
        Ok(ApiRoute::Locale(rest)) => assert_eq!(parts_of(rest), vec![""]),
        _ => panic!("a route was expected"),
    }
    match ApiRoute::from_str("/v0/locale") {
        Ok(ApiRoute::Locale(rest)) => assert!(parts_of(rest).is_empty()),
        _ => panic!("a route was expected"),
    }
}

#[test]
fn slashes_at_the_start_do_not_matter() {
    assert_eq!(shown("v0/tables/Objects/all"), "all Objects");
    assert_eq!(shown("////v0/tables/Objects/all"), "all Objects");
}

#[test]
fn versions_can_be_read_from_their_own_parts() {
    assert!(matches!(ApiRoute::v0(Parts::new("tables")), Ok(ApiRoute::Tables)));
    assert!(matches!(ApiRoute::v0(Parts::new("")), Err(())));
    assert!(matches!(ApiRoute::v1(Parts::new("tables")), Ok(ApiRoute::Tables)));
    assert!(matches!(ApiRoute::v1(Parts::new("tables/")), Err(())));
}

#[test]
fn other_parts_of_the_api() {
    match sub_api("/v0/crc/123/x") {
        Some(SubApi::Crc(rest)) => assert_eq!(parts_of(rest), vec!["123", "x"]),
        _ => panic!("the lookup by checksum was expected"),
    }
    match sub_api("/v0/rev") {
        Some(SubApi::Rev(rest)) => assert!(parts_of(rest).is_empty()),
        _ => panic!("the reverse lookups were expected"),
    }
    assert!(sub_api("/v0").is_none());
    assert!(sub_api("/v0/tables").is_none());
    assert!(sub_api("/v1/rev").is_none());
    assert!(sub_api("//v0/rev").is_none());
    assert!(sub_api("").is_none());
}

#[test]
fn other_parts_of_the_api_are_no_routes() {
    for path in ["/v0/crc/1", "/v0/rev/skill_ids/2", "v0/rev"] {
        assert!(sub_api(path).is_some());
        assert_eq!(shown(path), "none");
    }
}

#[test]
fn keys_are_told_from_other_parts() {
    assert_eq!(key_text("/v0/tables/Objects/1.5"), Some("1.5"));
    assert_eq!(key_text("v0/tables/Objects/"), Some(""));
    for path in ["", "/v0/tables/5", "/v0/tables/Objects/def", "/v0/tables/Objects/all"] {
        assert_eq!(key_text(path), None);
    }
    assert_eq!(key_text("/v0/locale/Objects/5"), None);
    assert_eq!(key_text("/v0/tables/Objects/5/6"), None);
}
