use fontgrep::cache::FontCache;
use fontgrep::font::FontInfo;
use fontgrep::matchers::{AxesMatcher, CodepointsMatcher, FontMatcher, NameMatcher, VariableFontMatcher};
use fontgrep::query::{live_match, QueryCriteria};
use fontgrep::scan::{scan_files, FileObservation, FontQuery};
use fontgrep::sql::build_query;
use fontgrep::FontgrepError;

fn strings(v: &[&str]) -> Vec<String> {
    v.iter().map(|s| s.to_string()).collect()
}

fn font(names: &[&str], axes: &[&str], charset: &[u32]) -> FontInfo {
    FontInfo::from_extracted(
        &strings(names),
        &strings(axes),
        &strings(&["liga", "kern", "liga"]),
        &strings(&["latn"]),
        &strings(&["GSUB", "cmap"]),
        &charset.to_vec(),
    )
}

fn memory_cache() -> FontCache {
    FontCache::new(Some(":memory:")).unwrap()
}

#[test]
fn extracted_info_is_flattened() {
    let info = font(&["Foo Regular", "Foo Bold", "Foo Regular"], &["wght"], &[0x42, 0x41, 0x0A, 0xD800, 0x41, 0xFFFF]);
    assert_eq!(info.name_string, "Foo Regular Foo Bold");
    assert!(info.is_variable);
    assert_eq!(info.features, strings(&["liga", "kern"]));
    assert_eq!(info.charset_string, "AB");
    let plain = font(&["Bar"], &[], &[]);
    assert!(!plain.is_variable);
    assert_eq!(plain.charset_string, "");
}

#[test]
fn repeated_tags_are_stored_once() {
    let mut cache = memory_cache();
    let info = font(&["Foo", "Foo"], &["wght", "wdth", "wght"], &[]);
    cache.update_font("/f/a.ttf", &info, 1, 1).unwrap();
    let stored = &cache.records()[0].info;
    assert_eq!(stored.axes, strings(&["wght", "wdth"]));
    assert_eq!(stored.features, strings(&["liga", "kern"]));
    assert_eq!(stored.names, strings(&["Foo"]));
}

#[test]
fn unreadable_file_keeps_its_record() {
    let mut cache = memory_cache();
    cache.update_font("/f/a.ttf", &font(&["A"], &[], &[]), 1, 1).unwrap();
    let obs = vec![FileObservation { path: "/f/a.ttf".to_string(), fingerprint: None, parsed: None }];
    assert!(scan_files(&mut cache, &QueryCriteria::default(), &obs).is_empty());
    assert_eq!(cache.get_all_font_paths().unwrap(), strings(&["/f/a.ttf"]));
}

#[test]
fn cached_search_answers_when_store_is_used() {
    let mut cache = memory_cache();
    cache.update_font("/f/a.ttf", &font(&["A"], &["wght"], &[]), 1, 1).unwrap();
    let variable = QueryCriteria::new(vec![], vec![], vec![], vec![], vec![], vec![], true);
    let q = FontQuery::with_cache(variable, cache, 1);
    assert_eq!(q.execute_cached(&vec![]), Some(strings(&["/f/a.ttf"])));
    let direct = FontQuery::new(QueryCriteria::default(), false, None, 1);
    assert_eq!(direct.execute_cached(&vec![]), None);
}

#[test]
fn upsert_twice_is_idempotent() {
    let mut cache = memory_cache();
    let info = font(&["Foo"], &["wght"], &[0x41]);
    cache.update_font("/f/a.ttf", &info, 10, 100).unwrap();
    let once: Vec<(u64, String, i64, i64, Vec<String>)> = cache
        .records()
        .iter()
        .map(|r| (r.id, r.path.clone(), r.mtime, r.size, r.info.axes.clone()))
        .collect();
    cache.update_font("/f/a.ttf", &info, 10, 100).unwrap();
    let twice: Vec<(u64, String, i64, i64, Vec<String>)> = cache
        .records()
        .iter()
        .map(|r| (r.id, r.path.clone(), r.mtime, r.size, r.info.axes.clone()))
        .collect();
    assert_eq!(once, twice);
    assert_eq!(twice.len(), 1);
    assert_eq!(twice[0].4, strings(&["wght"]));
}

#[test]
fn staleness_follows_fingerprint() {
    let mut cache = memory_cache();
    assert!(cache.needs_update("/f/a.ttf", 5, 7));
    cache.update_font("/f/a.ttf", &font(&["Foo"], &[], &[]), 5, 7).unwrap();
    assert!(!cache.needs_update("/f/a.ttf", 5, 7));
    assert!(cache.needs_update("/f/a.ttf", 6, 7));
    assert!(cache.needs_update("/f/a.ttf", 5, 8));
    assert!(cache.needs_update("/f/b.ttf", 5, 7));
}

#[test]
fn update_keeps_identifier() {
    let mut cache = memory_cache();
    cache.update_font("/f/a.ttf", &font(&["A"], &[], &[]), 1, 1).unwrap();
    cache.update_font("/f/b.ttf", &font(&["B"], &[], &[]), 1, 1).unwrap();
    let id_b = cache.records()[1].id;
    cache.update_font("/f/b.ttf", &font(&["B2"], &["wdth"], &[]), 2, 2).unwrap();
    assert_eq!(cache.records()[1].id, id_b);
    assert_eq!(cache.records()[1].info.name_string, "B2");
    assert_ne!(cache.records()[0].id, id_b);
}

#[test]
fn remove_missing_deletes_exactly_absent_paths() {
    let mut cache = memory_cache();
    for p in ["/f/a.ttf", "/f/b.ttf", "/f/c.ttf"] {
        cache.update_font(p, &font(&["X"], &["wght"], &[]), 1, 1).unwrap();
    }
    cache.clean_missing_fonts(&strings(&["/f/a.ttf", "/f/c.ttf", "/f/zzz.ttf"])).unwrap();
    assert_eq!(cache.get_all_font_paths().unwrap(), strings(&["/f/a.ttf", "/f/c.ttf"]));
    cache.clean_missing_fonts(&vec![]).unwrap();
    assert!(cache.get_all_font_paths().unwrap().is_empty());
}

#[test]
fn axes_matcher_is_conjunctive() {
    let info = font(&["Foo"], &["wght", "wdth"], &[]);
    assert!(!AxesMatcher::new(&strings(&["wght", "ital"])).matches(&info));
    assert!(AxesMatcher::new(&strings(&["wght"])).matches(&info));
    assert!(AxesMatcher::new(&[]).matches(&info));
}

#[test]
fn name_matcher_is_disjunctive() {
    let info = font(&["Foo Regular", "Foo Bold"], &[], &[]);
    assert!(NameMatcher::new(&strings(&["Bold", "Baz"])).matches(&info));
    assert!(!NameMatcher::new(&strings(&["Baz"])).matches(&info));
    assert!(NameMatcher::new(&strings(&["^Foo"])).matches(&info));
    assert!(NameMatcher::new(&strings(&["Bold$"])).matches(&info));
    assert!(!NameMatcher::new(&strings(&["^Bold"])).matches(&info));
    assert!(NameMatcher::new(&strings(&["^Foo Bold$"])).matches(&info));
    assert!(!NameMatcher::new(&strings(&["^Foo Regular Foo Bold$"])).matches(&info));
    assert!(!NameMatcher::new(&strings(&["Regular Foo"])).matches(&info));
    assert!(NameMatcher::new(&strings(&["Fo+ B"])).matches(&info));
    assert!(!NameMatcher::new(&strings(&["(unclosed"])).matches(&info));
}

#[test]
fn charset_check_agrees_on_both_paths() {
    let mut cache = memory_cache();
    let info = font(&["Foo"], &[], &[0x41]);
    cache.update_font("/f/a.ttf", &info, 1, 1).unwrap();
    let criteria = QueryCriteria::new(vec![], vec!['A', 'B'], vec![], vec![], vec![], vec![], false);
    assert!(!live_match(&criteria, &info));
    assert!(!CodepointsMatcher::new(&['A', 'B']).matches(&info));
    assert!(cache.query(&criteria).unwrap().is_empty());
    let only_a = QueryCriteria::new(vec![], vec!['A'], vec![], vec![], vec![], vec![], false);
    assert!(live_match(&only_a, &info));
    assert_eq!(cache.query(&only_a).unwrap(), strings(&["/f/a.ttf"]));
}

#[test]
fn long_charset_is_probed_by_its_first_five_characters() {
    let mut cache = memory_cache();
    let info = font(&["Foo"], &[], &[0x41, 0x42, 0x43, 0x44, 0x45]);
    cache.update_font("/f/a.ttf", &info, 1, 1).unwrap();
    let cps: Vec<char> = "ABCDEFGHIJK".chars().collect();
    let criteria = QueryCriteria::new(vec![], cps, vec![], vec![], vec![], vec![], false);
    assert_eq!(cache.query(&criteria).unwrap(), strings(&["/f/a.ttf"]));
    assert!(!live_match(&criteria, &info));
}

#[test]
fn stored_info_round_trips_through_query() {
    let mut cache = memory_cache();
    let info = font(&["Foo Sans"], &["wght"], &[0x41, 0x42]);
    cache.update_font("/f/a.ttf", &info, 1, 1).unwrap();
    cache.update_font("/f/b.ttf", &font(&["Other"], &[], &[]), 1, 1).unwrap();
    let criteria = QueryCriteria::new(
        info.axes.clone(),
        info.charset_string.chars().collect(),
        info.features.clone(),
        info.scripts.clone(),
        info.tables.clone(),
        vec![format!("^{}$", info.names[0])],
        true,
    );
    assert_eq!(cache.query(&criteria).unwrap(), strings(&["/f/a.ttf"]));
}

#[test]
fn scan_then_forget_deleted_file() {
    let mut cache = memory_cache();
    let f1 = font(&["One"], &["wght"], &[0x41]);
    let f2 = font(&["Two"], &[], &[0x41]);
    let variable = QueryCriteria::new(vec![], vec![], vec![], vec![], vec![], vec![], true);
    let obs = vec![
        FileObservation { path: "/f/one.ttf".to_string(), fingerprint: Some((1, 10)), parsed: Some(f1) },
        FileObservation { path: "/f/two.ttf".to_string(), fingerprint: Some((1, 20)), parsed: Some(f2) },
    ];
    let matched = scan_files(&mut cache, &variable, &obs);
    assert_eq!(matched, strings(&["/f/one.ttf"]));
    assert_eq!(cache.query(&variable).unwrap(), strings(&["/f/one.ttf"]));

    let again = vec![FileObservation { path: "/f/two.ttf".to_string(), fingerprint: Some((1, 20)), parsed: None }];
    let empty = QueryCriteria::default();
    let matched = scan_files(&mut cache, &empty, &again);
    assert_eq!(matched, strings(&["/f/two.ttf"]));
    assert_eq!(cache.get_all_font_paths().unwrap(), strings(&["/f/two.ttf"]));
}

#[test]
fn unparsed_stale_file_is_skipped() {
    let mut cache = memory_cache();
    let obs = vec![FileObservation { path: "/f/bad.ttf".to_string(), fingerprint: Some((1, 1)), parsed: None }];
    let matched = scan_files(&mut cache, &QueryCriteria::default(), &obs);
    assert!(matched.is_empty());
    assert!(cache.get_all_font_paths().unwrap().is_empty());
}

#[test]
fn batch_update_writes_every_item() {
    let mut cache = memory_cache();
    let mut items = Vec::new();
    for i in 0..250 {
        items.push((format!("/f/{}.ttf", i), font(&["X"], &[], &[]), 1i64, i as i64));
    }
    items.push(("/f/0.ttf".to_string(), font(&["Y"], &[], &[]), 2, 2));
    cache.batch_update_fonts(items).unwrap();
    assert_eq!(cache.records().len(), 250);
    assert_eq!(cache.records()[0].info.name_string, "Y");
    assert!(!cache.needs_update("/f/0.ttf", 2, 2));
}

#[test]
fn query_cache_filters_by_directory() {
    let mut cache = memory_cache();
    for p in ["/a/x.ttf", "/ab/y.ttf", "/a/sub/z.otf"] {
        cache.update_font(p, &font(&["X"], &[], &[]), 1, 1).unwrap();
    }
    let q = FontQuery::with_cache(QueryCriteria::default(), cache, 1);
    assert_eq!(q.query_cache(&strings(&["/a"])).unwrap(), strings(&["/a/x.ttf", "/a/sub/z.otf"]));
    assert_eq!(q.query_cache(&strings(&["/a/"])).unwrap(), strings(&["/a/x.ttf", "/a/sub/z.otf"]));
    assert_eq!(q.query_cache(&vec![]).unwrap().len(), 3);
    assert_eq!(q.list_all_fonts().unwrap().len(), 3);
}

#[test]
fn query_without_store_is_an_error() {
    let q = FontQuery::new(QueryCriteria::default(), false, None, 1);
    assert!(matches!(q.query_cache(&vec![]), Err(FontgrepError::Cache(_))));
    assert!(matches!(q.list_all_fonts(), Err(FontgrepError::Cache(_))));
}

#[test]
fn store_location_must_be_given() {
    assert!(matches!(FontCache::new(None), Err(FontgrepError::Config(_))));
    assert!(matches!(FontCache::new(Some("")), Err(FontgrepError::Config(_))));
    assert_eq!(FontCache::new(Some("/tmp/x.db")).unwrap().get_cache_path(), "/tmp/x.db");
}

#[test]
fn restore_rejects_repeated_paths() {
    let mut cache = memory_cache();
    cache.update_font("/f/a.ttf", &font(&["A"], &[], &[]), 1, 1).unwrap();
    let mut rows: Vec<_> = cache.records().iter().map(|r| r.duplicate()).collect();
    let restored = FontCache::from_records("db", rows.iter().map(|r| r.duplicate()).collect()).unwrap();
    assert!(!restored.needs_update("/f/a.ttf", 1, 1));
    let mut copy = rows[0].duplicate();
    copy.id = 99;
    rows.push(copy);
    assert!(matches!(FontCache::from_records("db", rows), Err(FontgrepError::Cache(_))));
}

#[test]
fn variable_matcher_needs_axes() {
    assert!(VariableFontMatcher::new().matches(&font(&["A"], &["wght"], &[])));
    assert!(!VariableFontMatcher::new().matches(&font(&["A"], &[], &[])));
}

#[test]
fn query_text_binds_values() {
    let criteria = QueryCriteria::new(
        strings(&["wght", "wdth"]),
        vec!['%'],
        vec![],
        vec![],
        vec![],
        strings(&["O'Neil_"]),
        true,
    );
    let (sql, params) = build_query(&criteria);
    assert_eq!(
        sql,
        "SELECT DISTINCT f.path FROM fonts f JOIN font_properties p1 ON p1.font_id = f.id AND p1.kind = ? \
WHERE f.is_variable = 1 AND p1.value IN (?, ?) AND EXISTS (SELECT 1 FROM font_names nf WHERE nf.font_id = f.id AND (nf.name LIKE '%O''Neil\\_%' ESCAPE '\\')) \
AND (f.charset LIKE ? ESCAPE '\\') GROUP BY f.id HAVING COUNT(DISTINCT p1.value) = 2"
    );
    assert_eq!(params, strings(&["axis", "wght", "wdth", "%\\%%"]));
}

#[test]
fn batch_rewrites_need_no_new_identifiers() {
    let mut cache = memory_cache();
    cache.update_font("/f/a.ttf", &font(&["A"], &[], &[]), 1, 1).unwrap();
    let mut rows: Vec<_> = cache.records().iter().map(|r| r.duplicate()).collect();
    rows[0].id = u64::MAX - 1;
    let mut full = FontCache::from_records("db", rows).unwrap();
    full.batch_update_fonts(vec![("/f/a.ttf".to_string(), font(&["A2"], &[], &[]), 2, 2)]).unwrap();
    assert_eq!(full.records()[0].info.name_string, "A2");
    assert_eq!(full.records()[0].id, u64::MAX - 1);
    let r = full.batch_update_fonts(vec![("/f/b.ttf".to_string(), font(&["B"], &[], &[]), 1, 1)]);
    assert!(matches!(r, Err(FontgrepError::Cache(_))));
    assert_eq!(full.records().len(), 1);
}
