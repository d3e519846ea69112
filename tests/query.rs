use fontgrep::cli::{Commands, InfoArgs, UpdateArgs};
use fontgrep::font::{parse_table_tags, FontInfo};
use fontgrep::matchers::{FeaturesMatcher, FontMatcher, ScriptsMatcher, TablesMatcher};
use fontgrep::query::QueryCriteria;
use fontgrep::scan::{FileObservation, FontQuery};
use fontgrep::sql::QueryBuilder;

fn strings(v: &[&str]) -> Vec<String> {
    v.iter().map(|s| s.to_string()).collect()
}

fn sample() -> FontInfo {
    FontInfo::from_extracted(
        &strings(&["Sample"]),
        &strings(&[]),
        &strings(&["liga", "smcp"]),
        &strings(&["latn", "cyrl"]),
        &strings(&["GSUB", "OS/2"]),
        &vec![0x61],
    )
}

#[test]
fn tag_matchers_need_every_tag() {
    let info = sample();
    assert!(FeaturesMatcher::new(&strings(&["smcp", "liga"])).matches(&info));
    assert!(!FeaturesMatcher::new(&strings(&["smcp", "onum"])).matches(&info));
    assert!(ScriptsMatcher::new(&strings(&["cyrl"])).matches(&info));
    assert!(!ScriptsMatcher::new(&strings(&["grek"])).matches(&info));
    let tags = parse_table_tags(&strings(&["OS/2"])).unwrap();
    assert!(TablesMatcher::new(&tags).matches(&info));
    let missing = parse_table_tags(&strings(&["GPOS"])).unwrap();
    assert!(!TablesMatcher::new(&missing).matches(&info));
}

#[test]
fn commands_that_use_the_store() {
    assert!(Commands::Saved.uses_cache());
    assert!(Commands::Forget.uses_cache());
    assert!(Commands::Save(UpdateArgs { paths: vec![], force: false, jobs: 1 }).uses_cache());
    assert!(!Commands::Font(InfoArgs { path: "a.ttf".to_string(), detailed: false }).uses_cache());
}

#[test]
fn query_keeps_store_across_scans() {
    let mut q = FontQuery::new(QueryCriteria::default(), true, Some(":memory:"), 2);
    assert_eq!(q.jobs(), 2);
    let obs = vec![FileObservation { path: "/x/a.otf".to_string(), fingerprint: Some((3, 4)), parsed: Some(sample()) }];
    assert_eq!(q.update_cache(&obs).unwrap(), strings(&["/x/a.otf"]));
    assert_eq!(q.list_all_fonts().unwrap(), strings(&["/x/a.otf"]));
    assert!(!q.cache().unwrap().needs_update("/x/a.otf", 3, 4));
    q.clean_cache(&vec![]).unwrap();
    assert!(q.list_all_fonts().unwrap().is_empty());
}

#[test]
fn query_without_location_has_no_store() {
    let mut q = FontQuery::new(QueryCriteria::default(), true, None, 1);
    assert!(q.cache().is_none());
    assert!(q.update_cache(&vec![]).is_err());
    assert!(q.clean_cache(&vec![]).is_err());
}

#[test]
fn empty_builder_selects_every_path() {
    let (sql, params) = QueryBuilder::new()
        .with_property("axis", &[])
        .with_name_patterns(&[])
        .with_charset("")
        .build();
    assert_eq!(sql, "SELECT DISTINCT f.path FROM fonts f");
    assert!(params.is_empty());
}

#[test]
fn repeated_wanted_tags_are_bound_once() {
    let (sql, params) = QueryBuilder::new()
        .with_property("feature", &strings(&["liga", "liga"]))
        .with_property("script", &strings(&["latn"]))
        .build();
    assert_eq!(
        sql,
        "SELECT DISTINCT f.path FROM fonts f JOIN font_properties p1 ON p1.font_id = f.id AND p1.kind = ? \
JOIN font_properties p2 ON p2.font_id = f.id AND p2.kind = ? WHERE p1.value IN (?) AND p2.value IN (?) \
GROUP BY f.id HAVING COUNT(DISTINCT p1.value) = 1 AND COUNT(DISTINCT p2.value) = 1"
    );
    assert_eq!(params, strings(&["feature", "script", "liga", "latn"]));
}
