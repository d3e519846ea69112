use fontgrep::cache::FontCache;
use fontgrep::font::FontInfo;
use fontgrep::query::QueryCriteria;
use fontgrep::sql::build_query;
use rusqlite::{params_from_iter, Connection};

const SCHEMA: &str = "
    CREATE TABLE fonts (id INTEGER PRIMARY KEY, path TEXT NOT NULL UNIQUE, name TEXT NOT NULL,
        is_variable INTEGER NOT NULL, mtime INTEGER NOT NULL, size INTEGER NOT NULL, charset TEXT NOT NULL);
    CREATE TABLE font_properties (id INTEGER PRIMARY KEY, font_id INTEGER NOT NULL, kind TEXT NOT NULL,
        value TEXT NOT NULL);
    CREATE TABLE font_names (id INTEGER PRIMARY KEY, font_id INTEGER NOT NULL, name TEXT NOT NULL);
";

fn strings(v: &[&str]) -> Vec<String> {
    v.iter().map(|s| s.to_string()).collect()
}

fn fonts() -> Vec<(&'static str, FontInfo)> {
    vec![
        (
            "/f/one.ttf",
            FontInfo::from_extracted(
                &strings(&["One Sans", "Bold"]),
                &strings(&["wght", "wdth"]),
                &strings(&["liga", "smcp"]),
                &strings(&["latn"]),
                &strings(&["GSUB", "fvar"]),
                &vec![0x41, 0x42, 0x25],
            ),
        ),
        (
            "/f/two.ttf",
            FontInfo::from_extracted(
                &strings(&["Two Serif"]),
                &strings(&[]),
                &strings(&["liga"]),
                &strings(&["latn", "cyrl"]),
                &strings(&["GSUB"]),
                &vec![0x41],
            ),
        ),
    ]
}

fn setup() -> (Connection, FontCache) {
    let conn = Connection::open_in_memory().unwrap();
    conn.execute_batch(SCHEMA).unwrap();
    let mut cache = FontCache::new(Some(":memory:")).unwrap();
    for (path, info) in fonts() {
        cache.update_font(path, &info, 1, 1).unwrap();
    }
    for r in cache.records() {
        let id = r.id as i64;
        conn.execute(
            "INSERT INTO fonts (id, path, name, is_variable, mtime, size, charset) VALUES (?1, ?2, ?3, ?4, ?5, ?6, ?7)",
            (id, &r.path, &r.info.name_string, r.info.is_variable, r.mtime, r.size, &r.info.charset_string),
        )
        .unwrap();
        for n in &r.info.names {
            conn.execute("INSERT INTO font_names (font_id, name) VALUES (?1, ?2)", (id, n)).unwrap();
        }
        for (kind, values) in [("axis", &r.info.axes), ("feature", &r.info.features), ("script", &r.info.scripts), ("table", &r.info.tables)] {
            for v in values {
                conn.execute("INSERT INTO font_properties (font_id, kind, value) VALUES (?1, ?2, ?3)", (id, kind, v)).unwrap();
            }
        }
    }
    (conn, cache)
}

fn run_sql(conn: &Connection, c: &QueryCriteria) -> Vec<String> {
    let (sql, values) = build_query(c);
    let mut stmt = conn.prepare(&sql).unwrap();
    let mut out: Vec<String> = stmt
        .query_map(params_from_iter(values.iter()), |row| row.get::<_, String>(0))
        .unwrap()
        .map(|r| r.unwrap())
        .collect();
    out.sort();
    out
}

fn criteria(axes: &[&str], text: &str, features: &[&str], scripts: &[&str], tables: &[&str], names: &[&str], variable: bool) -> QueryCriteria {
    QueryCriteria::new(
        strings(axes),
        text.chars().collect(),
        strings(features),
        strings(scripts),
        strings(tables),
        strings(names),
        variable,
    )
}

#[test]
fn sql_and_store_agree() {
    let (conn, cache) = setup();
    let cases = vec![
        criteria(&[], "", &[], &[], &[], &[], false),
        criteria(&["wght"], "", &[], &[], &[], &[], false),
        criteria(&["wght", "ital"], "", &[], &[], &[], &[], false),
        criteria(&[], "", &["liga"], &["latn"], &["GSUB"], &[], false),
        criteria(&[], "", &["liga", "smcp"], &[], &[], &[], true),
        criteria(&[], "", &[], &["cyrl", "latn"], &[], &[], false),
        criteria(&[], "AB", &[], &[], &[], &[], false),
        criteria(&[], "A", &[], &[], &[], &[], false),
        criteria(&[], "%", &[], &[], &[], &[], false),
        criteria(&[], "", &[], &[], &[], &["serif", "Nothing"], false),
        criteria(&[], "", &[], &[], &[], &["^one"], false),
        criteria(&[], "", &[], &[], &[], &["bold$"], false),
        criteria(&[], "", &[], &[], &[], &["^two serif$"], false),
        criteria(&[], "", &[], &[], &[], &["^bold$"], false),
        criteria(&[], "", &[], &[], &[], &["sans bold"], false),
        criteria(&["wght", "wght"], "", &[], &[], &[], &[], false),
        criteria(&[], "", &[], &[], &[], &["_"], false),
    ];
    for c in &cases {
        let mut model = cache.query(c).unwrap();
        model.sort();
        assert_eq!(run_sql(&conn, c), model, "criteria {:?}", c);
    }
}

#[test]
fn missing_character_fails_on_both_paths() {
    let (conn, cache) = setup();
    let c = criteria(&[], "AB", &[], &[], &[], &[], false);
    assert_eq!(run_sql(&conn, &c), strings(&["/f/one.ttf"]));
    assert_eq!(cache.query(&c).unwrap(), strings(&["/f/one.ttf"]));
    let c = criteria(&[], "B", &[], &[], &[], &[], false);
    assert!(!run_sql(&conn, &c).contains(&"/f/two.ttf".to_string()));
}
