//! Scan Coordinator: the decisions of a scan over observed font files,
//! against the store and the criteria.
use vstd::prelude::*;
use crate::cache::{
    index_of, remove_missing_spec, stale_spec, upsert_fails, upsert_spec, FontCache, StoreView,
};
use crate::codepoints::string_views;
use crate::font::{FontInfo, InfoView};
use crate::query::{live_match, live_matches, CriteriaView, QueryCriteria};
use crate::text::chars_of;

verus! {

/// What a scan learned about one font file: where it is, its fingerprint
/// (modification time and size; none when they could not be read), and its
/// freshly extracted attributes if it was parsed (a file is parsed when the
/// store had no up-to-date record of it, or when a full refresh is wanted;
/// a file that failed to parse has none).
#[derive(Debug)]
pub struct FileObservation {
    pub path: String,
    pub fingerprint: Option<(i64, i64)>,
    pub parsed: Option<FontInfo>,
}

/// The mathematical content of a `FileObservation`.
pub struct ObservationView {
    pub path: Seq<char>,
    pub fingerprint: Option<(i64, i64)>,
    pub parsed: Option<InfoView>,
}

impl View for FileObservation {
    type V = ObservationView;

    open spec fn view(&self) -> ObservationView {
        ObservationView {
            path: self.path@,
            fingerprint: self.fingerprint,
            parsed: match self.parsed {
                Some(i) => Some(i@),
                None => None,
            },
        }
    }
}

/// One file of a scan: freshly parsed attributes are matched and written
/// whatever the outcome (unless identifiers ran out); otherwise a record
/// with the same fingerprint is matched as stored; otherwise, or when the
/// fingerprint could not be read, the file is skipped. Yields the store
/// after the step and whether the file matched.
pub open spec fn scan_step(s: StoreView, c: CriteriaView, o: ObservationView) -> (StoreView, bool) {
    match o.fingerprint {
        None => (s, false),
        Some((mtime, size)) => match o.parsed {
            Some(info) => (
                if upsert_fails(s, o.path) {
                    s
                } else {
                    upsert_spec(s, o.path, info, mtime, size)
                },
                live_matches(c, info),
            ),
            None => if !stale_spec(s, o.path, mtime, size) {
                (s, live_matches(c, s.records[index_of(s.records, o.path)].info))
            } else {
                (s, false)
            },
        },
    }
}

/// The files of a scan one after the other: the final store and the paths
/// of the files that matched, in order.
pub open spec fn scan_fold(s: StoreView, c: CriteriaView, obs: Seq<ObservationView>) -> (StoreView, Seq<Seq<char>>)
    decreases obs.len(),
{
    if obs.len() == 0 {
        (s, Seq::empty())
    } else {
        let (s1, m) = scan_fold(s, c, obs.drop_last());
        let (s2, hit) = scan_step(s1, c, obs.last());
        (s2, if hit { m.push(obs.last().path) } else { m })
    }
}

/// The paths of the observations.
pub open spec fn observed_paths(obs: Seq<ObservationView>) -> Seq<Seq<char>> {
    obs.map_values(|o: ObservationView| o.path)
}

/// A whole scan: the files in order, then, once all are done, removal of
/// every record whose file was not observed.
pub open spec fn scan_spec(s: StoreView, c: CriteriaView, obs: Seq<ObservationView>) -> (StoreView, Seq<Seq<char>>) {
    let (s1, m) = scan_fold(s, c, obs);
    (remove_missing_spec(s1, observed_paths(obs)), m)
}

/// The views of a sequence of observations.
pub open spec fn observation_views(v: Seq<FileObservation>) -> Seq<ObservationView> {
    v.map_values(|o: FileObservation| o@)
}

/// Runs a scan over the observed files: matches each against the criteria,
/// writes fresh attributes to the store, and after the last file removes
/// the records of files no longer observed. Returns the matching paths.
pub fn scan_files(cache: &mut FontCache, criteria: &QueryCriteria, observations: &Vec<FileObservation>) -> (r: Vec<String>)
    requires
        old(cache).wf(),
    ensures
        final(cache).wf(),
        final(cache).spec_location() == old(cache).spec_location(),
        (final(cache)@, string_views(r@)) == scan_spec(old(cache)@, criteria@, observation_views(observations@)),
{
    let ghost obs = observation_views(observations@);
    let ghost start = cache@;
    let mut matched: Vec<String> = Vec::new();
    let mut paths: Vec<String> = Vec::new();
    let mut i: usize = 0;
    proof {
        assert(obs.take(0) =~= Seq::<ObservationView>::empty());
        assert(string_views(matched@) =~= Seq::<Seq<char>>::empty());
        assert(string_views(paths@) =~= Seq::<Seq<char>>::empty());
    }
    while i < observations.len()
        invariant
            i <= observations@.len(),
            obs == observation_views(observations@),
            start == old(cache)@,
            cache.wf(),
            cache.spec_location() == old(cache).spec_location(),
            (cache@, string_views(matched@)) == scan_fold(start, criteria@, obs.take(i as int)),
            string_views(paths@) == observed_paths(obs.take(i as int)),
        decreases observations.len() - i,
    {
        let o = &observations[i];
        let ghost before = cache@;
        let ghost m0 = string_views(matched@);
        proof {
            assert(obs.take(i as int + 1).drop_last() =~= obs.take(i as int));
            assert(obs.take(i as int + 1).last() == o@);
            assert(obs[i as int] == o@);
        }
        let hit = match o.fingerprint {
            None => false,
            Some((mtime, size)) => match &o.parsed {
                Some(info) => {
                    let hit = live_match(criteria, info);
                    let _ = cache.update_font(o.path.as_str(), info, mtime, size);
                    hit
                },
                None => {
                    if !cache.needs_update(o.path.as_str(), mtime, size) {
                        match cache.lookup(o.path.as_str()) {
                            Some(info) => live_match(criteria, info),
                            None => false,
                        }
                    } else {
                        false
                    }
                },
            },
        };
        proof {
            assert((cache@, hit) == scan_step(before, criteria@, o@));
        }
        if hit {
            matched.push(o.path.clone());
            proof {
                assert(string_views(matched@) =~= m0.push(o.path@));
            }
        }
        let ghost p0 = string_views(paths@);
        paths.push(o.path.clone());
        proof {
            assert(string_views(paths@) =~= p0.push(o.path@));
            assert(observed_paths(obs.take(i as int + 1)) =~= observed_paths(obs.take(i as int)).push(o.path@));
        }
        i = i + 1;
    }
    proof {
        assert(obs.take(obs.len() as int) =~= obs);
    }
    let _ = cache.clean_missing_fonts(&paths);
    matched
}

/// `d` without trailing slashes.
pub open spec fn trim_slashes(d: Seq<char>) -> Seq<char>
    decreases d.len(),
{
    if d.len() > 0 && d.last() == '/' {
        trim_slashes(d.drop_last())
    } else {
        d
    }
}

/// Whether path `p` lies under directory `d`, comparing whole components:
/// `p` is `d` itself or continues it after a slash. Every path lies under
/// the empty directory.
pub open spec fn path_within(p: Seq<char>, d: Seq<char>) -> bool {
    let t = trim_slashes(d);
    d.len() == 0 || p == t || (p.len() > t.len() && p.take(t.len() as int) == t && p[t.len() as int] == '/')
}

fn trim_slashes_exec(d: &Vec<char>) -> (r: usize)
    ensures
        r <= d.len(),
        d@.take(r as int) == trim_slashes(d@),
{
    let mut n: usize = d.len();
    proof {
        assert(d@.take(n as int) =~= d@);
    }
    while n > 0 && d[n - 1] == '/'
        invariant
            n <= d.len(),
            trim_slashes(d@.take(n as int)) == trim_slashes(d@),
        decreases n,
    {
        proof {
            assert(d@.take(n as int).drop_last() =~= d@.take(n as int - 1));
        }
        n = n - 1;
    }
    n
}

/// Whether a path lies under a directory, by whole components.
pub fn is_within(path: &String, dir: &String) -> (r: bool)
    ensures
        r == path_within(path@, dir@),
{
    let p = chars_of(path.as_str());
    let d = chars_of(dir.as_str());
    if d.len() == 0 {
        return true;
    }
    let n = trim_slashes_exec(&d);
    if p.len() == n {
        let mut k: usize = 0;
        while k < n
            invariant
                k <= n,
                n == p.len(),
                n <= d.len(),
                d@ == dir@,
                p@ == path@,
                d@.len() > 0,
                d@.take(n as int) == trim_slashes(d@),
                forall|m: int| 0 <= m < k ==> p@[m] == d@[m],
            decreases n - k,
        {
            if p[k] != d[k] {
                proof {
                    assert(d@.take(n as int)[k as int] != p@[k as int]);
                    assert(p@ != d@.take(n as int));
                    assert(trim_slashes(dir@) == d@.take(n as int));
                }
                return false;
            }
            k = k + 1;
        }
        proof {
            assert(p@ =~= d@.take(n as int));
        }
        return true;
    }
    if p.len() < n {
        proof {
            assert(p@.len() != d@.take(n as int).len());
        }
        return false;
    }
    let mut k: usize = 0;
    while k < n
        invariant
            k <= n,
            n < p.len(),
            n <= d.len(),
            d@ == dir@,
            p@ == path@,
            d@.len() > 0,
            d@.take(n as int) == trim_slashes(d@),
            forall|m: int| 0 <= m < k ==> p@[m] == d@[m],
        decreases n - k,
    {
        if p[k] != d[k] {
            proof {
                assert(p@.take(n as int)[k as int] != d@.take(n as int)[k as int]);
                assert(p@.take(n as int) != d@.take(n as int));
                assert(p@.len() != d@.take(n as int).len());
                assert(trim_slashes(dir@) == d@.take(n as int));
            }
            return false;
        }
        k = k + 1;
    }
    proof {
        assert(p@.take(n as int) =~= d@.take(n as int));
        assert(p@.len() != d@.take(n as int).len());
    }
    p[n] == '/'
}

/// The paths of `v` that lie under at least one of the directories, in order.
pub open spec fn within_any(v: Seq<Seq<char>>, dirs: Seq<Seq<char>>) -> Seq<Seq<char>>
    decreases v.len(),
{
    if v.len() == 0 {
        v
    } else if exists|j: int| 0 <= j < dirs.len() && path_within(v.last(), #[trigger] dirs[j]) {
        within_any(v.drop_last(), dirs).push(v.last())
    } else {
        within_any(v.drop_last(), dirs)
    }
}

/// The paths that lie under at least one of the directories, in order.
pub fn filter_within(v: &Vec<String>, dirs: &Vec<String>) -> (r: Vec<String>)
    ensures
        string_views(r@) == within_any(string_views(v@), string_views(dirs@)),
{
    let mut out: Vec<String> = Vec::new();
    let mut i: usize = 0;
    proof {
        assert(string_views(v@.take(0)) =~= Seq::<Seq<char>>::empty());
        assert(string_views(out@) =~= Seq::<Seq<char>>::empty());
    }
    while i < v.len()
        invariant
            i <= v.len(),
            string_views(out@) == within_any(string_views(v@.take(i as int)), string_views(dirs@)),
        decreases v.len() - i,
    {
        let ghost cur = string_views(v@.take(i as int + 1));
        proof {
            assert(cur.drop_last() =~= string_views(v@.take(i as int)));
            assert(cur.last() == v@[i as int]@);
        }
        let mut j: usize = 0;
        let mut found = false;
        while j < dirs.len() && !found
            invariant
                i < v.len(),
                j <= dirs.len(),
                found ==> exists|k: int| 0 <= k < dirs@.len() && path_within(v@[i as int]@, #[trigger] string_views(dirs@)[k]),
                !found ==> forall|k: int| 0 <= k < j ==> !path_within(v@[i as int]@, #[trigger] string_views(dirs@)[k]),
            decreases dirs.len() - j,
        {
            if is_within(&v[i], &dirs[j]) {
                proof {
                    assert(string_views(dirs@)[j as int] == dirs@[j as int]@);
                }
                found = true;
            } else {
                proof {
                    assert(string_views(dirs@)[j as int] == dirs@[j as int]@);
                }
            }
            j = j + 1;
        }
        if found {
            let ghost before = string_views(out@);
            out.push(v[i].clone());
            proof {
                assert(string_views(out@) =~= before.push(v@[i as int]@));
            }
        }
        i = i + 1;
    }
    proof {
        assert(v@.take(v@.len() as int) =~= v@);
    }
    out
}

/// Whether no criterion is active.
pub open spec fn criteria_empty(c: CriteriaView) -> bool {
    c.axes.len() == 0 && c.codepoints.len() == 0 && c.features.len() == 0 && c.scripts.len() == 0
        && c.tables.len() == 0 && c.name_patterns.len() == 0 && !c.variable
}

/// What the store answers to a search: the stored fonts that satisfy the
/// criteria under the store's rules (every stored font when no criterion is
/// active), restricted to those under one of `dirs` unless `dirs` is empty.
pub open spec fn cache_answer(c: CriteriaView, s: StoreView, dirs: Seq<Seq<char>>) -> Seq<Seq<char>> {
    let all = if criteria_empty(c) {
        crate::cache::paths_of(s.records)
    } else {
        crate::cache::matching_paths(s.records, c)
    };
    if dirs.len() == 0 {
        all
    } else {
        within_any(all, dirs)
    }
}

/// A search: the criteria, whether the store is consulted, the store, and
/// the number of parallel workers wanted for parsing.
pub struct FontQuery {
    criteria: QueryCriteria,
    use_cache: bool,
    cache: Option<FontCache>,
    jobs: usize,
}

impl FontQuery {
    /// The criteria searched for.
    pub closed spec fn spec_criteria(&self) -> CriteriaView {
        self.criteria@
    }

    /// The store consulted, if any.
    pub closed spec fn spec_cache(&self) -> Option<StoreView> {
        match self.cache {
            Some(c) => Some(c@),
            None => None,
        }
    }

    /// Whether the store is to be consulted.
    pub closed spec fn spec_use_cache(&self) -> bool {
        self.use_cache
    }

    /// The number of parallel workers wanted.
    pub closed spec fn spec_jobs(&self) -> usize {
        self.jobs
    }

    /// The store, when present, is well formed.
    pub closed spec fn wf(&self) -> bool {
        self.cache matches Some(c) ==> c.wf()
    }

    /// A search over the criteria; when the store is to be used, a new
    /// empty store at `cache_path` (none when the location is invalid).
    /// Name patterns become regular expressions as `regex_source` says, a
    /// pattern that does not compile being left out (see `names_pass_spec`).
    pub fn new(criteria: QueryCriteria, use_cache: bool, cache_path: Option<&str>, jobs: usize) -> (r: FontQuery)
        ensures
            r.wf(),
            r.spec_criteria() == criteria@,
            r.spec_use_cache() == use_cache,
            r.spec_jobs() == jobs,
            r.spec_cache() is Some <==> (use_cache && (cache_path matches Some(p) && p@.len() > 0)),
            r.spec_cache() matches Some(s) ==> s.records.len() == 0,
    {
        let cache = if use_cache {
            match FontCache::new(cache_path) {
                Ok(c) => Some(c),
                Err(_) => None,
            }
        } else {
            None
        };
        FontQuery { criteria, use_cache, cache, jobs }
    }

    /// A search over the criteria that consults the given store.
    pub fn with_cache(criteria: QueryCriteria, cache: FontCache, jobs: usize) -> (r: FontQuery)
        requires
            cache.wf(),
        ensures
            r.wf(),
            r.spec_criteria() == criteria@,
            r.spec_use_cache(),
            r.spec_cache() == Some(cache@),
            r.spec_jobs() == jobs,
    {
        FontQuery { criteria, use_cache: true, cache: Some(cache), jobs }
    }

    /// The criteria.
    pub fn criteria(&self) -> (r: &QueryCriteria)
        ensures
            r@ == self.spec_criteria(),
    {
        &self.criteria
    }

    /// The number of parallel workers wanted.
    pub fn jobs(&self) -> (r: usize)
        ensures
            r == self.spec_jobs(),
    {
        self.jobs
    }

    /// The store, if any.
    pub fn cache(&self) -> (r: Option<&FontCache>)
        requires
            self.wf(),
        ensures
            r matches Some(c) ==> self.spec_cache() == Some(c@) && c.wf(),
            r is None ==> self.spec_cache() is None,
    {
        match &self.cache {
            Some(c) => Some(c),
            None => None,
        }
    }

    /// Whether a font satisfies the criteria under the live rules.
    pub fn font_matches(&self, info: &FontInfo) -> (r: bool)
        ensures
            r == live_matches(self.spec_criteria(), info@),
    {
        live_match(&self.criteria, info)
    }

    /// The stored fonts that satisfy the criteria under the store's rules
    /// and lie under one of `paths` (all stored fonts satisfying them when
    /// `paths` is empty; every stored font when no criterion is active).
    pub fn query_cache(&self, paths: &Vec<String>) -> (r: crate::Result<Vec<String>>)
        ensures
            self.spec_cache() is None ==> r matches Err(crate::FontgrepError::Cache(_)),
            self.spec_cache() matches Some(s) ==> (r matches Ok(v) && string_views(v@)
                == cache_answer(self.spec_criteria(), s, string_views(paths@))),
    {
        match &self.cache {
            None => Err(crate::FontgrepError::Cache("Cache not initialized".to_string())),
            Some(cache) => {
                let all = if self.criteria.is_empty() {
                    cache.get_all_font_paths()
                } else {
                    cache.query(&self.criteria)
                };
                match all {
                    Ok(v) => {
                        if paths.len() == 0 {
                            Ok(v)
                        } else {
                            Ok(filter_within(&v, paths))
                        }
                    },
                    Err(e) => Err(e),
                }
            },
        }
    }

    /// A search through the store, when the query uses one: the store's
    /// answer for `paths`. None means that the store is not used, is
    /// missing or could not answer, and the files are to be searched
    /// directly instead.
    pub fn execute_cached(&self, paths: &Vec<String>) -> (r: Option<Vec<String>>)
        ensures
            r is Some <==> (self.spec_use_cache() && self.spec_cache() is Some),
            r matches Some(v) ==> (self.spec_cache() matches Some(s) && string_views(v@)
                == cache_answer(self.spec_criteria(), s, string_views(paths@))),
    {
        if !self.use_cache {
            return None;
        }
        match self.query_cache(paths) {
            Ok(v) => Some(v),
            Err(_) => None,
        }
    }

    /// Runs a scan over observed files against the store (see `scan_files`)
    /// and returns the matching paths.
    pub fn update_cache(&mut self, observations: &Vec<FileObservation>) -> (r: crate::Result<Vec<String>>)
        requires
            old(self).wf(),
        ensures
            final(self).wf(),
            final(self).spec_criteria() == old(self).spec_criteria(),
            old(self).spec_cache() is None ==> (r matches Err(crate::FontgrepError::Cache(_))
                && final(self).spec_cache() is None),
            old(self).spec_cache() matches Some(s) ==> (r matches Ok(v) && (final(self).spec_cache() matches Some(s2)
                && (s2, string_views(v@)) == scan_spec(s, old(self).spec_criteria(), observation_views(observations@)))),
    {
        match &mut self.cache {
            None => Err(crate::FontgrepError::Cache("Cache not initialized".to_string())),
            Some(cache) => {
                let m = scan_files(cache, &self.criteria, observations);
                Ok(m)
            },
        }
    }

    /// The paths of all stored fonts.
    pub fn list_all_fonts(&self) -> (r: crate::Result<Vec<String>>)
        ensures
            self.spec_cache() is None ==> r matches Err(crate::FontgrepError::Cache(_)),
            self.spec_cache() matches Some(s) ==> (r matches Ok(v) && string_views(v@) == crate::cache::paths_of(s.records)),
    {
        match &self.cache {
            None => Err(crate::FontgrepError::Cache("Cache not initialized".to_string())),
            Some(cache) => cache.get_all_font_paths(),
        }
    }

    /// Removes from the store every font whose path is not among
    /// `existing_paths`.
    pub fn clean_cache(&mut self, existing_paths: &Vec<String>) -> (r: crate::Result<()>)
        requires
            old(self).wf(),
        ensures
            final(self).wf(),
            final(self).spec_criteria() == old(self).spec_criteria(),
            old(self).spec_cache() is None ==> r matches Err(crate::FontgrepError::Cache(_)),
            old(self).spec_cache() matches Some(s) ==> (r is Ok && final(self).spec_cache() == Some(
                remove_missing_spec(s, string_views(existing_paths@)),
            )),
    {
        match &mut self.cache {
            None => Err(crate::FontgrepError::Cache("Cache not initialized".to_string())),
            Some(cache) => cache.clean_missing_fonts(existing_paths),
        }
    }

    /// Gives up the query, handing back its store.
    pub fn into_cache(self) -> (r: Option<FontCache>)
        requires
            self.wf(),
        ensures
            r matches Some(c) ==> c.wf() && self.spec_cache() == Some(c@),
            r is None ==> self.spec_cache() is None,
    {
        self.cache
    }
}

} // verus!
