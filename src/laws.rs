//! Properties of the store, the matchers and the scan, proved over their
//! specifications.
use vstd::prelude::*;
use crate::cache::{
    has_path, lemma_upsert_keeps_paths,
    index_of, keep_present, lemma_upsert_wf, matching_paths, remove_missing_spec, stale_spec,
    store_wf, upsert_fails, upsert_spec, RecordView, StoreView,
};
use crate::font::{distinct_info, lemma_dedup_contains, InfoView};
use crate::query::{
    any_pattern_matches, has_all,
    charset_probe, live_matches, names_pass_spec, pattern_matches,
    store_matches, CriteriaView,
};
use crate::scan::{observed_paths, scan_spec, ObservationView};

verus! {

proof fn lemma_index_of_unique(recs: Seq<RecordView>, p: Seq<char>, k: int)
    requires
        crate::cache::paths_unique(recs),
        0 <= k < recs.len(),
        recs[k].path == p,
    ensures
        index_of(recs, p) == k,
{
    let j = index_of(recs, p);
    assert(recs[j].path == p);
}

/// The record a write leaves for its path.
proof fn lemma_upsert_record(s: StoreView, p: Seq<char>, info: InfoView, mtime: i64, size: i64)
    requires
        store_wf(s),
        !upsert_fails(s, p),
    ensures
        ({
            let s1 = upsert_spec(s, p, info, mtime, size);
            let k = index_of(s1.records, p);
            &&& 0 <= k < s1.records.len()
            &&& s1.records[k].path == p
            &&& s1.records[k].info == distinct_info(info)
            &&& s1.records[k].mtime == mtime
            &&& s1.records[k].size == size
        }),
{
    lemma_upsert_wf(s, p, info, mtime, size);
    let s1 = upsert_spec(s, p, info, mtime, size);
    let i = index_of(s.records, p);
    if i >= 0 {
        lemma_index_of_unique(s1.records, p, i);
    } else {
        lemma_index_of_unique(s1.records, p, s.records.len() as int);
    }
}

/// Writing the same path, attributes and fingerprint twice leaves the
/// store as writing them once: no record and no property is duplicated.
pub proof fn lemma_upsert_idempotent(s: StoreView, p: Seq<char>, info: InfoView, mtime: i64, size: i64)
    requires
        store_wf(s),
        !upsert_fails(s, p),
    ensures
        upsert_spec(upsert_spec(s, p, info, mtime, size), p, info, mtime, size) == upsert_spec(
            s,
            p,
            info,
            mtime,
            size,
        ),
{
    lemma_upsert_record(s, p, info, mtime, size);
    let s1 = upsert_spec(s, p, info, mtime, size);
    let k = index_of(s1.records, p);
    let s2 = upsert_spec(s1, p, info, mtime, size);
    assert(s1.records[k] == RecordView { id: s1.records[k].id, path: p, info: distinct_info(info), mtime, size });
    assert(s2.records =~= s1.records);
}

/// `dedup_spec` leaves no element twice.
pub proof fn lemma_dedup_no_duplicates(s: Seq<Seq<char>>)
    ensures
        crate::font::dedup_spec(s).no_duplicates(),
    decreases s.len(),
{
    if s.len() > 0 {
        lemma_dedup_no_duplicates(s.drop_last());
        let d = crate::font::dedup_spec(s.drop_last());
        if !s.drop_last().contains(s.last()) {
            lemma_dedup_contains(s.drop_last(), s.last());
            assert forall|a: int, b: int| 0 <= a < b < d.len() + 1 implies d.push(s.last())[a] != d.push(
                s.last(),
            )[b] by {
                if b == d.len() {
                    assert(d.contains(d[a]));
                }
            }
        }
    }
}

/// After a write, each tag kind of the path's record holds exactly the
/// written tags of that kind, each once.
pub proof fn lemma_upsert_tags_are_sets(s: StoreView, p: Seq<char>, info: InfoView, mtime: i64, size: i64)
    requires
        store_wf(s),
        !upsert_fails(s, p),
    ensures
        ({
            let s1 = upsert_spec(s, p, info, mtime, size);
            let r = s1.records[index_of(s1.records, p)].info;
            &&& r.axes.no_duplicates() && r.features.no_duplicates() && r.scripts.no_duplicates()
                && r.tables.no_duplicates()
            &&& forall|t: Seq<char>| r.axes.contains(t) <==> info.axes.contains(t)
            &&& forall|t: Seq<char>| r.features.contains(t) <==> info.features.contains(t)
            &&& forall|t: Seq<char>| r.scripts.contains(t) <==> info.scripts.contains(t)
            &&& forall|t: Seq<char>| r.tables.contains(t) <==> info.tables.contains(t)
        }),
{
    lemma_upsert_record(s, p, info, mtime, size);
    lemma_dedup_no_duplicates(info.axes);
    lemma_dedup_no_duplicates(info.features);
    lemma_dedup_no_duplicates(info.scripts);
    lemma_dedup_no_duplicates(info.tables);
    assert forall|t: Seq<char>| crate::font::dedup_spec(info.axes).contains(t) <==> info.axes.contains(t) by {
        lemma_dedup_contains(info.axes, t);
    }
    assert forall|t: Seq<char>| crate::font::dedup_spec(info.features).contains(t) <==> info.features.contains(t) by {
        lemma_dedup_contains(info.features, t);
    }
    assert forall|t: Seq<char>| crate::font::dedup_spec(info.scripts).contains(t) <==> info.scripts.contains(t) by {
        lemma_dedup_contains(info.scripts, t);
    }
    assert forall|t: Seq<char>| crate::font::dedup_spec(info.tables).contains(t) <==> info.tables.contains(t) by {
        lemma_dedup_contains(info.tables, t);
    }
}

/// Writing a path that the store already holds never runs out of
/// identifiers, so a batch that repeats a written item is written whole.
pub proof fn lemma_rewrite_fits(s: StoreView, p: Seq<char>, info: InfoView, mtime: i64, size: i64)
    requires
        store_wf(s),
        !upsert_fails(s, p),
    ensures
        crate::cache::fits_from(upsert_spec(s, p, info, mtime, size), seq![(p, info, mtime, size)]),
{
    let s1 = upsert_spec(s, p, info, mtime, size);
    lemma_upsert_keeps_paths(s, p, info, mtime, size, p);
    let j = choose|j: int| 0 <= j < s1.records.len() && s1.records[j].path == p;
    assert(s1.records[j].path == p);
    assert(index_of(s1.records, p) >= 0);
    let y = seq![(p, info, mtime, size)];
    assert(y.drop_first() =~= Seq::<(Seq<char>, InfoView, i64, i64)>::empty());
    assert(crate::cache::fits_from(upsert_spec(s1, p, info, mtime, size), y.drop_first()));
    assert(y[0] == (p, info, mtime, size));
    assert(!upsert_fails(s1, y[0].0));
}

/// After a write with fingerprint (mtime, size) the path is up to date for
/// that fingerprint and stale for a later time or another size.
pub proof fn lemma_staleness_after_upsert(s: StoreView, p: Seq<char>, info: InfoView, mtime: i64, size: i64)
    requires
        store_wf(s),
        !upsert_fails(s, p),
    ensures
        !stale_spec(upsert_spec(s, p, info, mtime, size), p, mtime, size),
        mtime < i64::MAX ==> stale_spec(upsert_spec(s, p, info, mtime, size), p, (mtime + 1) as i64, size),
        size < i64::MAX ==> stale_spec(upsert_spec(s, p, info, mtime, size), p, mtime, (size + 1) as i64),
{
    lemma_upsert_record(s, p, info, mtime, size);
}

/// A path without a record is stale, whatever its fingerprint.
pub proof fn lemma_unknown_path_stale(s: StoreView, p: Seq<char>, mtime: i64, size: i64)
    requires
        forall|i: int| 0 <= i < s.records.len() ==> (#[trigger] s.records[i]).path != p,
    ensures
        stale_spec(s, p, mtime, size),
{
}

proof fn lemma_keep_present_contains(recs: Seq<RecordView>, existing: Seq<Seq<char>>, x: RecordView)
    ensures
        keep_present(recs, existing).contains(x) <==> (recs.contains(x) && existing.contains(x.path)),
    decreases recs.len(),
{
    if recs.len() > 0 {
        let q = recs.drop_last();
        lemma_keep_present_contains(q, existing, x);
        let kq = keep_present(q, existing);
        let k = keep_present(recs, existing);
        if q.contains(x) {
            let j = choose|j: int| 0 <= j < q.len() && q[j] == x;
            assert(recs[j] == x);
        }
        if recs.contains(x) && x != recs.last() {
            let j = choose|j: int| 0 <= j < recs.len() && recs[j] == x;
            assert(q[j] == x);
        }
        if x == recs.last() {
            assert(recs[recs.len() - 1] == x);
        }
        if kq.contains(x) {
            let j = choose|j: int| 0 <= j < kq.len() && kq[j] == x;
            assert(k[j] == x);
        }
        if k.contains(x) && !kq.contains(x) {
            let j = choose|j: int| 0 <= j < k.len() && k[j] == x;
            if j < kq.len() {
                assert(kq[j] == x);
            }
        }
        if existing.contains(recs.last().path) && x == recs.last() {
            assert(k[kq.len() as int] == x);
        }
    }
}

/// Cleaning with a set of existing paths keeps exactly the records whose
/// path is in the set, properties included, and deletes all others.
pub proof fn lemma_remove_missing_exact(s: StoreView, existing: Seq<Seq<char>>)
    ensures
        forall|x: RecordView|
            #[trigger] remove_missing_spec(s, existing).records.contains(x) <==> (s.records.contains(x)
                && existing.contains(x.path)),
{
    assert forall|x: RecordView|
        #[trigger] remove_missing_spec(s, existing).records.contains(x) <==> (s.records.contains(x)
            && existing.contains(x.path)) by {
        lemma_keep_present_contains(s.records, existing, x);
    }
}

/// With at most ten wanted characters, given as the charset text, the
/// store's rules and the live rules agree on every font.
pub proof fn lemma_charset_paths_agree(c: CriteriaView, f: InfoView)
    requires
        c.charset == c.codepoints,
        c.codepoints.len() <= 10,
    ensures
        store_matches(c, f) == live_matches(c, f),
{
}

proof fn lemma_matching_paths_contains(recs: Seq<RecordView>, c: CriteriaView, k: int)
    requires
        0 <= k < recs.len(),
        store_matches(c, recs[k].info),
    ensures
        matching_paths(recs, c).contains(recs[k].path),
    decreases recs.len(),
{
    let q = recs.drop_last();
    if k < recs.len() - 1 {
        assert(q[k] == recs[k]);
        lemma_matching_paths_contains(q, c, k);
        let mq = matching_paths(q, c);
        let j = choose|j: int| 0 <= j < mq.len() && mq[j] == recs[k].path;
        if store_matches(c, recs.last().info) {
            assert(mq.push(recs.last().path)[j] == recs[k].path);
        }
    } else {
        let mq = matching_paths(q, c);
        assert(mq.push(recs.last().path)[mq.len() as int] == recs[k].path);
    }
}

proof fn lemma_has_all_distinct(have: Seq<Seq<char>>, want: Seq<Seq<char>>)
    ensures
        has_all(crate::font::dedup_spec(have), want) == has_all(have, want),
{
    assert forall|i: int| 0 <= i < want.len() implies (crate::font::dedup_spec(have).contains(
        #[trigger] want[i],
    ) == have.contains(want[i])) by {
        lemma_dedup_contains(have, want[i]);
    }
}

/// Keeping only distinct tags and names changes no match under the store's
/// rules.
pub proof fn lemma_store_matches_distinct(c: CriteriaView, f: InfoView)
    ensures
        store_matches(c, distinct_info(f)) == store_matches(c, f),
{
    lemma_has_all_distinct(f.axes, c.axes);
    let da = crate::font::dedup_spec(f.axes);
    if f.axes.len() > 0 {
        lemma_dedup_contains(f.axes, f.axes[0]);
        assert(f.axes.contains(f.axes[0]));
    }
    if da.len() > 0 {
        lemma_dedup_contains(f.axes, da[0]);
        assert(da.contains(da[0]));
    }
    assert((da.len() > 0) == (f.axes.len() > 0));
    lemma_has_all_distinct(f.features, c.features);
    lemma_has_all_distinct(f.scripts, c.scripts);
    lemma_has_all_distinct(f.tables, c.tables);
    let d = crate::font::dedup_spec(f.names);
    if any_pattern_matches(c.name_patterns, f.names) {
        let (i, j) = choose|i: int, j: int|
            0 <= i < c.name_patterns.len() && 0 <= j < f.names.len() && pattern_matches(
                #[trigger] c.name_patterns[i],
                #[trigger] f.names[j],
            );
        lemma_dedup_contains(f.names, f.names[j]);
        assert(f.names.contains(f.names[j]));
        let j2 = choose|j2: int| 0 <= j2 < d.len() && d[j2] == f.names[j];
        assert(pattern_matches(c.name_patterns[i], d[j2]));
        assert(any_pattern_matches(c.name_patterns, d));
    }
    if any_pattern_matches(c.name_patterns, d) {
        let (i, j) = choose|i: int, j: int|
            0 <= i < c.name_patterns.len() && 0 <= j < d.len() && pattern_matches(
                #[trigger] c.name_patterns[i],
                #[trigger] d[j],
            );
        lemma_dedup_contains(f.names, d[j]);
        assert(d.contains(d[j]));
        let j2 = choose|j2: int| 0 <= j2 < f.names.len() && f.names[j2] == d[j];
        assert(pattern_matches(c.name_patterns[i], f.names[j2]));
        assert(any_pattern_matches(c.name_patterns, f.names));
    }
    assert(any_pattern_matches(c.name_patterns, d) == any_pattern_matches(c.name_patterns, f.names));
}

/// Storing a font and querying with criteria that its attributes satisfy
/// yields its path.
pub proof fn lemma_round_trip(
    s: StoreView,
    p: Seq<char>,
    info: InfoView,
    mtime: i64,
    size: i64,
    c: CriteriaView,
)
    requires
        store_wf(s),
        !upsert_fails(s, p),
        store_matches(c, info),
    ensures
        matching_paths(upsert_spec(s, p, info, mtime, size).records, c).contains(p),
{
    lemma_upsert_record(s, p, info, mtime, size);
    lemma_store_matches_distinct(c, info);
    let s1 = upsert_spec(s, p, info, mtime, size);
    lemma_matching_paths_contains(s1.records, c, index_of(s1.records, p));
}

/// Criteria that ask for every stored field of a font — its axes,
/// features, scripts and tables, its charset text, the variable flag when it
/// has axes, and name patterns that its names pass — accept it under the
/// store's rules.
pub proof fn lemma_own_fields_match(info: InfoView, c: CriteriaView)
    requires
        c.axes == info.axes,
        c.features == info.features,
        c.scripts == info.scripts,
        c.tables == info.tables,
        c.charset == info.charset,
        c.variable ==> info.axes.len() > 0,
        names_pass_spec(c.name_patterns, info.names),
    ensures
        store_matches(c, info),
{
    let probe = charset_probe(c.charset);
    assert forall|i: int| 0 <= i < probe.len() implies info.charset.contains(#[trigger] probe[i]) by {
        assert(info.charset[i] == probe[i]);
    }
    assert forall|i: int| 0 <= i < c.axes.len() implies info.axes.contains(#[trigger] c.axes[i]) by {
        assert(info.axes[i] == c.axes[i]);
    }
    assert forall|i: int| 0 <= i < c.features.len() implies info.features.contains(#[trigger] c.features[i]) by {
        assert(info.features[i] == c.features[i]);
    }
    assert forall|i: int| 0 <= i < c.scripts.len() implies info.scripts.contains(#[trigger] c.scripts[i]) by {
        assert(info.scripts[i] == c.scripts[i]);
    }
    assert forall|i: int| 0 <= i < c.tables.len() implies info.tables.contains(#[trigger] c.tables[i]) by {
        assert(info.tables[i] == c.tables[i]);
    }
}

/// After a scan, the store holds no record of a file that the scan did not
/// observe.
pub proof fn lemma_scan_keeps_only_observed(s: StoreView, c: CriteriaView, obs: Seq<ObservationView>)
    ensures
        forall|x: RecordView|
            #[trigger] scan_spec(s, c, obs).0.records.contains(x) ==> observed_paths(obs).contains(x.path),
{
    let s1 = crate::scan::scan_fold(s, c, obs).0;
    lemma_remove_missing_exact(s1, observed_paths(obs));
}

proof fn lemma_scan_fold_facts(s: StoreView, c: CriteriaView, obs: Seq<ObservationView>)
    requires
        store_wf(s),
        s.next_id + obs.len() <= u64::MAX,
    ensures
        store_wf(crate::scan::scan_fold(s, c, obs).0),
        crate::scan::scan_fold(s, c, obs).0.next_id <= s.next_id + obs.len(),
        forall|q: Seq<char>| has_path(s, q) ==> has_path(crate::scan::scan_fold(s, c, obs).0, q),
        forall|k: int| 0 <= k < obs.len() && (#[trigger] obs[k]).parsed is Some && obs[k].fingerprint is Some
            ==> has_path(crate::scan::scan_fold(s, c, obs).0, obs[k].path),
    decreases obs.len(),
{
    if obs.len() > 0 {
        let pre = obs.drop_last();
        lemma_scan_fold_facts(s, c, pre);
        let s1 = crate::scan::scan_fold(s, c, pre).0;
        let o = obs.last();
        assert(crate::scan::scan_fold(s, c, obs).0 == crate::scan::scan_step(s1, c, o).0);
        match (o.fingerprint, o.parsed) {
            (Some((mtime, size)), Some(info)) => {
                assert(!upsert_fails(s1, o.path));
                lemma_upsert_wf(s1, o.path, info, mtime, size);
                assert forall|q: Seq<char>| has_path(s1, q) implies has_path(upsert_spec(s1, o.path, info, mtime, size), q) by {
                    lemma_upsert_keeps_paths(s1, o.path, info, mtime, size, q);
                }
                lemma_upsert_keeps_paths(s1, o.path, info, mtime, size, o.path);
            },
            _ => {},
        }
        let s2 = crate::scan::scan_fold(s, c, obs).0;
        assert forall|k: int| 0 <= k < obs.len() && (#[trigger] obs[k]).parsed is Some && obs[k].fingerprint is Some implies has_path(s2, obs[k].path) by {
            if k < obs.len() - 1 {
                assert(pre[k] == obs[k]);
                assert(has_path(s1, pre[k].path));
            }
        }
    }
}

/// After a scan that has identifiers enough for every observed file, each
/// file that was parsed (with a readable fingerprint) has a record, each
/// observed file that had a record keeps one, and no file that was not
/// observed has one.
pub proof fn lemma_scan_end_to_end(s: StoreView, c: CriteriaView, obs: Seq<ObservationView>)
    requires
        store_wf(s),
        s.next_id + obs.len() <= u64::MAX,
    ensures
        forall|k: int| 0 <= k < obs.len() && (#[trigger] obs[k]).parsed is Some && obs[k].fingerprint is Some
            ==> has_path(scan_spec(s, c, obs).0, obs[k].path),
        forall|k: int| 0 <= k < obs.len() && has_path(s, #[trigger] obs[k].path)
            ==> has_path(scan_spec(s, c, obs).0, obs[k].path),
        forall|x: RecordView|
            #[trigger] scan_spec(s, c, obs).0.records.contains(x) ==> observed_paths(obs).contains(x.path),
{
    lemma_scan_fold_facts(s, c, obs);
    lemma_scan_keeps_only_observed(s, c, obs);
    let s1 = crate::scan::scan_fold(s, c, obs).0;
    let e = observed_paths(obs);
    lemma_remove_missing_exact(s1, e);
    assert forall|k: int| 0 <= k < obs.len() && (#[trigger] obs[k]).parsed is Some && obs[k].fingerprint is Some implies has_path(scan_spec(s, c, obs).0, obs[k].path) by {
        let p = obs[k].path;
        let j = choose|j: int| 0 <= j < s1.records.len() && s1.records[j].path == p;
        let x = s1.records[j];
        assert(s1.records.contains(x));
        assert(e[k] == p);
        assert(e.contains(p));
        let r = remove_missing_spec(s1, e).records;
        assert(r.contains(x));
        let i = choose|i: int| 0 <= i < r.len() && r[i] == x;
        assert(r[i].path == p);
    }
    assert forall|k: int| 0 <= k < obs.len() && has_path(s, #[trigger] obs[k].path) implies has_path(scan_spec(s, c, obs).0, obs[k].path) by {
        let p = obs[k].path;
        assert(has_path(s1, p));
        let j = choose|j: int| 0 <= j < s1.records.len() && s1.records[j].path == p;
        let x = s1.records[j];
        assert(s1.records.contains(x));
        assert(e[k] == p);
        assert(e.contains(p));
        let r = remove_missing_spec(s1, e).records;
        assert(r.contains(x));
        let i = choose|i: int| 0 <= i < r.len() && r[i] == x;
        assert(r[i].path == p);
    }
}

} // verus!
