//! Font Record Store: a durable index of Extracted Info keyed by path, with
//! a staleness fingerprint per record.
use vstd::prelude::*;
use crate::font::{distinct_info, FontInfo, InfoView};
use crate::query::{store_match, store_matches, CriteriaView, QueryCriteria};
use crate::{FontgrepError, DEFAULT_BATCH_SIZE};

verus! {

/// One indexed font.
#[derive(Debug)]
pub struct FontRecord {
    /// Surrogate key, kept across updates of the same path.
    pub id: u64,
    /// Where the font file is.
    pub path: String,
    /// Its extracted attributes.
    pub info: FontInfo,
    /// Modification time of the file when it was indexed.
    pub mtime: i64,
    /// Size of the file when it was indexed.
    pub size: i64,
}

/// The mathematical content of a `FontRecord`.
pub struct RecordView {
    pub id: u64,
    pub path: Seq<char>,
    pub info: InfoView,
    pub mtime: i64,
    pub size: i64,
}

impl View for FontRecord {
    type V = RecordView;

    open spec fn view(&self) -> RecordView {
        RecordView {
            id: self.id,
            path: self.path@,
            info: self.info@,
            mtime: self.mtime,
            size: self.size,
        }
    }
}

impl FontRecord {
    /// A copy of the record.
    pub fn duplicate(&self) -> (r: FontRecord)
        ensures
            r@ == self@,
    {
        FontRecord {
            id: self.id,
            path: self.path.clone(),
            info: self.info.duplicate(),
            mtime: self.mtime,
            size: self.size,
        }
    }
}

/// The mathematical content of the store: its records in order, and the
/// identifier the next new record receives.
pub struct StoreView {
    pub records: Seq<RecordView>,
    pub next_id: nat,
}

/// The views of a sequence of records.
pub open spec fn record_views(v: Seq<FontRecord>) -> Seq<RecordView> {
    v.map_values(|r: FontRecord| r@)
}

/// No two records share a path.
pub open spec fn paths_unique(recs: Seq<RecordView>) -> bool {
    forall|i: int, j: int|
        0 <= i < recs.len() && 0 <= j < recs.len() && i != j ==> recs[i].path != recs[j].path
}

/// No two records share an identifier, and every identifier is below `next_id`.
pub open spec fn ids_valid(recs: Seq<RecordView>, next_id: nat) -> bool {
    &&& forall|i: int| 0 <= i < recs.len() ==> (#[trigger] recs[i]).id < next_id
    &&& forall|i: int, j: int|
        0 <= i < recs.len() && 0 <= j < recs.len() && i != j ==> recs[i].id != recs[j].id
}

/// A well-formed store.
pub open spec fn store_wf(s: StoreView) -> bool {
    paths_unique(s.records) && ids_valid(s.records, s.next_id) && s.next_id <= u64::MAX
}

/// The position of the record for `p`, or -1.
pub open spec fn index_of(recs: Seq<RecordView>, p: Seq<char>) -> int {
    if exists|i: int| 0 <= i < recs.len() && recs[i].path == p {
        choose|i: int| 0 <= i < recs.len() && recs[i].path == p
    } else {
        -1
    }
}

/// Whether the store lacks a record for `p` with this fingerprint.
pub open spec fn stale_spec(s: StoreView, p: Seq<char>, mtime: i64, size: i64) -> bool {
    let i = index_of(s.records, p);
    !(i >= 0 && s.records[i].mtime == mtime && s.records[i].size == size)
}

/// The store after writing `info` with its fingerprint under `p`: an
/// existing record keeps its identifier and is overwritten; otherwise a
/// record is appended with the next identifier. The record keeps each tag
/// kind as a set: the distinct tags, first occurrences in order.
pub open spec fn upsert_spec(s: StoreView, p: Seq<char>, info: InfoView, mtime: i64, size: i64) -> StoreView {
    let i = index_of(s.records, p);
    if i >= 0 {
        StoreView {
            records: s.records.update(
                i,
                RecordView { id: s.records[i].id, path: p, info: distinct_info(info), mtime, size },
            ),
            next_id: s.next_id,
        }
    } else {
        StoreView {
            records: s.records.push(
                RecordView { id: s.next_id as u64, path: p, info: distinct_info(info), mtime, size },
            ),
            next_id: s.next_id + 1,
        }
    }
}

/// Whether writing a new path is impossible because identifiers ran out.
pub open spec fn upsert_fails(s: StoreView, p: Seq<char>) -> bool {
    index_of(s.records, p) < 0 && s.next_id >= u64::MAX
}

/// The paths of the records, in order.
pub open spec fn paths_of(recs: Seq<RecordView>) -> Seq<Seq<char>> {
    recs.map_values(|r: RecordView| r.path)
}

/// The paths of the records that the criteria accept under the store's rules.
pub open spec fn matching_paths(recs: Seq<RecordView>, c: CriteriaView) -> Seq<Seq<char>>
    decreases recs.len(),
{
    if recs.len() == 0 {
        Seq::empty()
    } else if store_matches(c, recs.last().info) {
        matching_paths(recs.drop_last(), c).push(recs.last().path)
    } else {
        matching_paths(recs.drop_last(), c)
    }
}

/// The records whose path is among `existing`, in order.
pub open spec fn keep_present(recs: Seq<RecordView>, existing: Seq<Seq<char>>) -> Seq<RecordView>
    decreases recs.len(),
{
    if recs.len() == 0 {
        Seq::empty()
    } else if existing.contains(recs.last().path) {
        keep_present(recs.drop_last(), existing).push(recs.last())
    } else {
        keep_present(recs.drop_last(), existing)
    }
}

/// The store after deleting every record whose path is not in `existing`.
pub open spec fn remove_missing_spec(s: StoreView, existing: Seq<Seq<char>>) -> StoreView {
    StoreView { records: keep_present(s.records, existing), next_id: s.next_id }
}

/// One write of a batch: path, attributes, modification time and size.
pub type BatchItem = (String, FontInfo, i64, i64);

/// The mathematical content of a batch item.
pub open spec fn item_view(t: BatchItem) -> (Seq<char>, InfoView, i64, i64) {
    (t.0@, t.1@, t.2, t.3)
}

/// The store after writing the items one after the other.
pub open spec fn upsert_all(s: StoreView, items: Seq<(Seq<char>, InfoView, i64, i64)>) -> StoreView
    decreases items.len(),
{
    if items.len() == 0 {
        s
    } else {
        let t = items.last();
        upsert_spec(upsert_all(s, items.drop_last()), t.0, t.1, t.2, t.3)
    }
}

/// The number of items in the chunk of a batch that starts at `k`.
pub open spec fn chunk_len(n: int, k: int) -> int {
    if n - k < DEFAULT_BATCH_SIZE {
        n - k
    } else {
        DEFAULT_BATCH_SIZE as int
    }
}

/// Whether writing the items one after the other, from store `s`, never
/// needs an identifier when they have run out.
pub open spec fn fits_from(s: StoreView, ys: Seq<(Seq<char>, InfoView, i64, i64)>) -> bool
    decreases ys.len(),
{
    ys.len() == 0 || (!upsert_fails(s, ys[0].0) && fits_from(
        upsert_spec(s, ys[0].0, ys[0].1, ys[0].2, ys[0].3),
        ys.drop_first(),
    ))
}

/// Whether the chunk of a batch that starts at `k` can be written whole:
/// writing its items after the earlier ones never runs out of identifiers.
pub open spec fn chunk_fits(s: StoreView, items: Seq<(Seq<char>, InfoView, i64, i64)>, k: int) -> bool {
    fits_from(upsert_all(s, items.take(k)), items.subrange(k, k + chunk_len(items.len() as int, k)))
}

/// Whether some record of the store has path `p`.
pub open spec fn has_path(s: StoreView, p: Seq<char>) -> bool {
    exists|i: int| 0 <= i < s.records.len() && #[trigger] s.records[i].path == p
}

/// A write adds its own path and keeps every other.
pub proof fn lemma_upsert_keeps_paths(s: StoreView, p: Seq<char>, info: InfoView, mtime: i64, size: i64, q: Seq<char>)
    ensures
        has_path(upsert_spec(s, p, info, mtime, size), q) <==> (has_path(s, q) || q == p),
        upsert_spec(s, p, info, mtime, size).next_id == if has_path(s, p) {
            s.next_id
        } else {
            s.next_id + 1
        },
{
    let s1 = upsert_spec(s, p, info, mtime, size);
    let i = index_of(s.records, p);
    if i >= 0 {
        assert(s.records[i].path == p);
        if q == p {
            assert(s1.records[i].path == q);
        } else if has_path(s, q) {
            let j = choose|j: int| 0 <= j < s.records.len() && s.records[j].path == q;
            assert(s1.records[j].path == q);
        }
        if has_path(s1, q) && q != p {
            let j = choose|j: int| 0 <= j < s1.records.len() && s1.records[j].path == q;
            assert(s.records[j].path == q);
        }
    } else {
        if q == p {
            assert(s1.records[s.records.len() as int].path == q);
        } else if has_path(s, q) {
            let j = choose|j: int| 0 <= j < s.records.len() && s.records[j].path == q;
            assert(s1.records[j].path == q);
        }
        if has_path(s1, q) && q != p {
            let j = choose|j: int| 0 <= j < s1.records.len() && s1.records[j].path == q;
            assert(j < s.records.len());
            assert(s.records[j].path == q);
        }
    }
}

/// Whether `k` starts a chunk of a batch of `n` items.
pub open spec fn chunk_start(n: int, k: int) -> bool {
    0 <= k < n && k % (DEFAULT_BATCH_SIZE as int) == 0
}

/// The font index.
pub struct FontCache {
    records: Vec<FontRecord>,
    next_id: u64,
    location: String,
}

impl View for FontCache {
    type V = StoreView;

    closed spec fn view(&self) -> StoreView {
        StoreView { records: record_views(self.records@), next_id: self.next_id as nat }
    }
}

impl FontCache {
    /// The store is well formed: unique paths and identifiers.
    pub open spec fn wf(&self) -> bool {
        store_wf(self@)
    }

    /// The location the store is kept at.
    pub closed spec fn spec_location(&self) -> Seq<char> {
        self.location@
    }

    /// An empty store kept at the given location: `:memory:` for one that
    /// is not written anywhere, or a file path. A missing or empty location
    /// is a configuration error.
    pub fn new(cache_path: Option<&str>) -> (r: crate::Result<FontCache>)
        ensures
            r matches Ok(c) ==> c.wf() && c@.records.len() == 0 && c@.next_id == 0 && (cache_path matches Some(
                p,
            ) && c.spec_location() == p@),
            r is Err <==> (cache_path is None || cache_path->Some_0@.len() == 0),
            r is Err ==> r matches Err(FontgrepError::Config(_)),
    {
        match cache_path {
            Some(p) => {
                if p.is_empty() {
                    Err(FontgrepError::Config("no cache location given".to_string()))
                } else {
                    let records: Vec<FontRecord> = Vec::new();
                    proof {
                        assert(record_views(records@) =~= Seq::<RecordView>::empty());
                    }
                    let c = FontCache { records, next_id: 0, location: p.to_string() };
                    proof {
                        assert(c@.records =~= Seq::<RecordView>::empty());
                    }
                    Ok(c)
                }
            },
            None => Err(FontgrepError::Config("no cache location given".to_string())),
        }
    }

    /// The location the store is kept at.
    pub fn get_cache_path(&self) -> (r: &String)
        ensures
            r@ == self.spec_location(),
    {
        &self.location
    }

    /// The stored records, in order.
    pub fn records(&self) -> (r: &Vec<FontRecord>)
        ensures
            record_views(r@) == self@.records,
    {
        &self.records
    }

    fn find(&self, path: &String) -> (r: Option<usize>)
        requires
            self.wf(),
        ensures
            r matches Some(i) ==> i as int == index_of(self@.records, path@) && i < self@.records.len(),
            r is None ==> index_of(self@.records, path@) == -1,
    {
        let mut i: usize = 0;
        while i < self.records.len()
            invariant
                i <= self.records@.len(),
                store_wf(self@),
                forall|j: int| 0 <= j < i ==> self.records@[j].path@ != path@,
            decreases self.records.len() - i,
        {
            if self.records[i].path == *path {
                proof {
                    let recs = self@.records;
                    assert(recs[i as int].path == path@);
                    let k = index_of(recs, path@);
                    assert(recs[k].path == path@);
                }
                return Some(i);
            }
            i = i + 1;
        }
        proof {
            let recs = self@.records;
            if exists|j: int| 0 <= j < recs.len() && recs[j].path == path@ {
                let j = choose|j: int| 0 <= j < recs.len() && recs[j].path == path@;
                assert(self.records@[j].path@ == path@);
            }
        }
        None
    }

    /// Whether the file at `path` with this modification time and size has
    /// no up-to-date record: true when no record exists or its stored
    /// fingerprint differs.
    pub fn needs_update(&self, path: &str, mtime: i64, size: i64) -> (r: bool)
        requires
            self.wf(),
        ensures
            r == stale_spec(self@, path@, mtime, size),
    {
        let key = path.to_string();
        match self.find(&key) {
            Some(i) => !(self.records[i].mtime == mtime && self.records[i].size == size),
            None => true,
        }
    }

    /// The stored attributes of the record for `path`, if any.
    pub fn lookup(&self, path: &str) -> (r: Option<&FontInfo>)
        requires
            self.wf(),
        ensures
            r matches Some(info) ==> index_of(self@.records, path@) >= 0 && info@ == self@.records[index_of(self@.records, path@)].info,
            r is None ==> index_of(self@.records, path@) == -1,
    {
        let key = path.to_string();
        match self.find(&key) {
            Some(i) => Some(&self.records[i].info),
            None => None,
        }
    }

    /// Writes a font's attributes and fingerprint under its path: the
    /// existing record is overwritten in place, keeping its identifier, or a
    /// new record is added; of each tag kind only the distinct tags are kept. Fails, changing nothing, only when a new record
    /// is needed and identifiers are exhausted.
    pub fn update_font(&mut self, path: &str, info: &FontInfo, mtime: i64, size: i64) -> (r: crate::Result<()>)
        requires
            old(self).wf(),
        ensures
            final(self).wf(),
            r is Ok <==> !upsert_fails(old(self)@, path@),
            r is Ok ==> final(self)@ == upsert_spec(old(self)@, path@, info@, mtime, size),
            r is Err ==> final(self)@ == old(self)@ && r matches Err(FontgrepError::Cache(_)),
            final(self).spec_location() == old(self).spec_location(),
    {
        let key = path.to_string();
        match self.find(&key) {
            Some(i) => {
                let id = self.records[i].id;
                let rec = FontRecord { id, path: key, info: info.distinct(), mtime, size };
                let ghost old_recs = self@.records;
                proof {
                    let new_recs = old_recs.update(i as int, rec@);
                    assert forall|a: int, b: int|
                        0 <= a < new_recs.len() && 0 <= b < new_recs.len() && a != b implies new_recs[a].path != new_recs[b].path by {
                        if a == i {
                            assert(old_recs[b].path != old_recs[i as int].path);
                        } else if b == i {
                            assert(old_recs[a].path != old_recs[i as int].path);
                        }
                    }
                    assert(new_recs[i as int].id == old_recs[i as int].id);
                    assert forall|a: int| 0 <= a < new_recs.len() implies (#[trigger] new_recs[a]).id < self@.next_id by {
                        assert(old_recs[a].id < self@.next_id);
                    }
                    assert forall|a: int, b: int|
                        0 <= a < new_recs.len() && 0 <= b < new_recs.len() && a != b implies new_recs[a].id != new_recs[b].id by {
                        assert(old_recs[a].id != old_recs[b].id);
                    }
                    assert(record_views(self.records@.update(i as int, rec)) =~= new_recs);
                }
                self.records.set(i, rec);
                proof {
                    assert(self@.records =~= old_recs.update(i as int, rec@));
                }
                Ok(())
            },
            None => {
                if self.next_id == u64::MAX {
                    return Err(FontgrepError::Cache("record identifiers exhausted".to_string()));
                }
                let id = self.next_id;
                self.next_id = id + 1;
                let rec = FontRecord { id, path: key, info: info.distinct(), mtime, size };
                let ghost old_recs = self@.records;
                proof {
                    let new_recs = old_recs.push(rec@);
                    assert forall|a: int, b: int|
                        0 <= a < new_recs.len() && 0 <= b < new_recs.len() && a != b implies new_recs[a].path != new_recs[b].path by {
                        if a == old_recs.len() {
                            assert(old_recs[b].path != path@);
                        } else if b == old_recs.len() {
                            assert(old_recs[a].path != path@);
                        }
                    }
                    assert forall|a: int| 0 <= a < new_recs.len() implies (#[trigger] new_recs[a]).id < id + 1 by {
                        if a < old_recs.len() {
                            assert(old_recs[a].id < id);
                        }
                    }
                    assert forall|a: int, b: int|
                        0 <= a < new_recs.len() && 0 <= b < new_recs.len() && a != b implies new_recs[a].id != new_recs[b].id by {
                        if a == old_recs.len() {
                            assert(old_recs[b].id < id);
                        } else if b == old_recs.len() {
                            assert(old_recs[a].id < id);
                        } else {
                            assert(old_recs[a].id != old_recs[b].id);
                        }
                    }
                    assert(record_views(self.records@.push(rec)) =~= new_recs);
                }
                self.records.push(rec);
                proof {
                    assert(self@.records =~= old_recs.push(rec@));
                }
                Ok(())
            },
        }
    }
}

/// Every record kept by `keep_present` is a record of the input.
pub proof fn lemma_keep_present_from(recs: Seq<RecordView>, existing: Seq<Seq<char>>)
    ensures
        forall|x: RecordView| keep_present(recs, existing).contains(x) ==> recs.contains(x),
    decreases recs.len(),
{
    if recs.len() > 0 {
        let p = recs.drop_last();
        lemma_keep_present_from(p, existing);
        assert forall|x: RecordView| keep_present(recs, existing).contains(x) implies recs.contains(x) by {
            let kp = keep_present(p, existing);
            if kp.contains(x) {
                assert(p.contains(x));
                let k = choose|k: int| 0 <= k < p.len() && p[k] == x;
                assert(recs[k] == x);
            } else {
                assert(x == recs.last());
                assert(recs[recs.len() - 1] == x);
            }
        }
    }
}

/// `keep_present` keeps a store well formed.
pub proof fn lemma_keep_present_wf(recs: Seq<RecordView>, existing: Seq<Seq<char>>, next_id: nat)
    requires
        paths_unique(recs),
        ids_valid(recs, next_id),
    ensures
        paths_unique(keep_present(recs, existing)),
        ids_valid(keep_present(recs, existing), next_id),
    decreases recs.len(),
{
    if recs.len() > 0 {
        let p = recs.drop_last();
        assert(paths_unique(p));
        assert forall|a: int, b: int|
            0 <= a < p.len() && 0 <= b < p.len() && a != b implies p[a].id != p[b].id by {
            assert(recs[a].id != recs[b].id);
        }
        assert forall|a: int| 0 <= a < p.len() implies (#[trigger] p[a]).id < next_id by {
            assert(recs[a].id < next_id);
        }
        lemma_keep_present_wf(p, existing, next_id);
        lemma_keep_present_from(p, existing);
        let kp = keep_present(p, existing);
        let last = recs.last();
        if existing.contains(last.path) {
            let r = kp.push(last);
            assert forall|a: int| 0 <= a < kp.len() implies kp[a].path != last.path && kp[a].id != last.id by {
                assert(kp.contains(kp[a]));
                assert(p.contains(kp[a]));
                let j = choose|j: int| 0 <= j < p.len() && p[j] == kp[a];
                assert(recs[j] == kp[a]);
                assert(recs[recs.len() - 1] == last);
            }
            assert(paths_unique(r));
            assert forall|a: int| 0 <= a < r.len() implies (#[trigger] r[a]).id < next_id by {
                if a == kp.len() {
                    assert(recs[recs.len() - 1].id < next_id);
                }
            }
        }
    }
}

/// Writing never lowers the next identifier and raises it by at most one.
pub proof fn lemma_upsert_next_id(s: StoreView, p: Seq<char>, info: InfoView, mtime: i64, size: i64)
    ensures
        s.next_id <= upsert_spec(s, p, info, mtime, size).next_id <= s.next_id + 1,
{
}

/// Writing keeps a store well formed, unless identifiers run out.
pub proof fn lemma_upsert_wf(s: StoreView, p: Seq<char>, info: InfoView, mtime: i64, size: i64)
    requires
        store_wf(s),
        !upsert_fails(s, p),
    ensures
        store_wf(upsert_spec(s, p, info, mtime, size)),
{
    let recs = s.records;
    let i = index_of(recs, p);
    let n = upsert_spec(s, p, info, mtime, size).records;
    if i >= 0 {
        assert forall|a: int, b: int| 0 <= a < n.len() && 0 <= b < n.len() && a != b implies n[a].path != n[b].path by {
            if a == i {
                assert(recs[b].path != recs[i].path);
            } else if b == i {
                assert(recs[a].path != recs[i].path);
            }
        }
        assert forall|a: int| 0 <= a < n.len() implies (#[trigger] n[a]).id < s.next_id by {
            assert(recs[a].id < s.next_id);
        }
        assert forall|a: int, b: int| 0 <= a < n.len() && 0 <= b < n.len() && a != b implies n[a].id != n[b].id by {
            assert(recs[a].id != recs[b].id);
        }
    } else {
        assert forall|a: int, b: int| 0 <= a < n.len() && 0 <= b < n.len() && a != b implies n[a].path != n[b].path by {
            if a == recs.len() {
                assert(recs[b].path != p);
            } else if b == recs.len() {
                assert(recs[a].path != p);
            }
        }
        assert forall|a: int| 0 <= a < n.len() implies (#[trigger] n[a]).id < s.next_id + 1 by {
            if a < recs.len() {
                assert(recs[a].id < s.next_id);
            }
        }
        assert forall|a: int, b: int| 0 <= a < n.len() && 0 <= b < n.len() && a != b implies n[a].id != n[b].id by {
            if a == recs.len() {
                assert(recs[b].id < s.next_id);
            } else if b == recs.len() {
                assert(recs[a].id < s.next_id);
            } else {
                assert(recs[a].id != recs[b].id);
            }
        }
    }
}

/// The views of a batch.
pub open spec fn batch_view(items: Seq<BatchItem>) -> Seq<(Seq<char>, InfoView, i64, i64)> {
    items.map_values(|t: BatchItem| item_view(t))
}

impl FontCache {
    /// Whether writing the items `from..to` of the batch, one after the
    /// other, never runs out of identifiers; nothing is written.
    fn chunk_can_apply(&self, fonts: &Vec<BatchItem>, from: usize, to: usize) -> (r: bool)
        requires
            self.wf(),
            from <= to <= fonts@.len(),
        ensures
            r == fits_from(self@, batch_view(fonts@).subrange(from as int, to as int)),
    {
        let ghost chunk = batch_view(fonts@).subrange(from as int, to as int);
        let ghost mut sim = self@;
        let mut count: u64 = 0;
        let mut j: usize = from;
        proof {
            assert(chunk.skip(0) =~= chunk);
        }
        while j < to
            invariant
                self.wf(),
                from <= j <= to,
                to <= fonts@.len(),
                chunk == batch_view(fonts@).subrange(from as int, to as int),
                fits_from(self@, chunk) == fits_from(sim, chunk.skip(j - from)),
                sim.next_id == self@.next_id + count,
                self@.next_id + count <= u64::MAX,
                forall|q: Seq<char>|
                    has_path(sim, q) <==> (has_path(self@, q) || exists|m: int|
                        from <= m < j && (#[trigger] fonts@[m]).0@ == q),
            decreases to - j,
        {
            let p = &fonts[j].0;
            let in_store = match self.find(p) {
                Some(_) => true,
                None => false,
            };
            proof {
                if in_store {
                    let k = index_of(self@.records, p@);
                    assert(self@.records[k].path == p@);
                    assert(has_path(self@, p@));
                }
            }
            let mut seen = false;
            let mut m: usize = from;
            while m < j && !seen
                invariant
                    from <= m <= j,
                    j < fonts@.len(),
                    seen ==> exists|x: int| from <= x < j && (#[trigger] fonts@[x]).0@ == p@,
                    !seen ==> forall|x: int| from <= x < m ==> (#[trigger] fonts@[x]).0@ != p@,
                decreases j - m,
            {
                if fonts[m].0 == *p {
                    seen = true;
                }
                m = m + 1;
            }
            let is_new = !in_store && !seen;
            let ghost y = chunk.skip(j - from);
            proof {
                assert(y[0] == batch_view(fonts@)[j as int]);
                assert(y[0].0 == p@);
                assert(has_path(sim, p@) == !is_new);
                assert(index_of(sim.records, p@) < 0 <==> !has_path(sim, p@));
            }
            if is_new && u64::MAX - self.next_id <= count {
                return false;
            }
            proof {
                lemma_upsert_keeps_paths(sim, y[0].0, y[0].1, y[0].2, y[0].3, p@);
                let nsim = upsert_spec(sim, y[0].0, y[0].1, y[0].2, y[0].3);
                assert forall|q: Seq<char>|
                    has_path(nsim, q) <==> (has_path(self@, q) || exists|x: int|
                        from <= x < j + 1 && (#[trigger] fonts@[x]).0@ == q) by {
                    lemma_upsert_keeps_paths(sim, y[0].0, y[0].1, y[0].2, y[0].3, q);
                    if exists|x: int| from <= x < j + 1 && (#[trigger] fonts@[x]).0@ == q {
                        let x = choose|x: int| from <= x < j + 1 && (#[trigger] fonts@[x]).0@ == q;
                        if x < j {
                            assert(exists|x2: int| from <= x2 < j && (#[trigger] fonts@[x2]).0@ == q);
                        }
                    }
                    if q == p@ {
                        assert(fonts@[j as int].0@ == q);
                    }
                }
                assert(y.drop_first() =~= chunk.skip(j + 1 - from));
                sim = nsim;
            }
            if is_new {
                count = count + 1;
            }
            j = j + 1;
        }
        true
    }

    /// Writes the items in order, as `update_font` would one by one, in
    /// chunks of `DEFAULT_BATCH_SIZE`. Before a chunk is written it is
    /// checked that identifiers suffice for it; the first chunk that fails
    /// the check ends the batch with an error, leaving the earlier chunks
    /// written and nothing of it.
    pub fn batch_update_fonts(&mut self, fonts: Vec<BatchItem>) -> (r: crate::Result<()>)
        requires
            old(self).wf(),
        ensures
            final(self).wf(),
            final(self).spec_location() == old(self).spec_location(),
            r is Ok <==> forall|k: int|
                chunk_start(fonts@.len() as int, k) ==> chunk_fits(old(self)@, batch_view(fonts@), k),
            r is Ok ==> final(self)@ == upsert_all(old(self)@, batch_view(fonts@)),
            r is Err ==> r matches Err(FontgrepError::Cache(_)),
            r is Err ==> exists|k: int|
                chunk_start(fonts@.len() as int, k) && !chunk_fits(old(self)@, batch_view(fonts@), k)
                    && final(self)@ == upsert_all(old(self)@, batch_view(fonts@).take(k)),
    {
        let ghost items = batch_view(fonts@);
        let ghost start = self@;
        let n = fonts.len();
        let mut i: usize = 0;
        let mut end: usize = 0;
        proof {
            assert(items.take(0) =~= Seq::<(Seq<char>, InfoView, i64, i64)>::empty());
        }
        while i < n
            invariant
                n == fonts@.len(),
                items == batch_view(fonts@),
                start == old(self)@,
                i <= n,
                self.wf(),
                self.spec_location() == old(self).spec_location(),
                self@ == upsert_all(start, items.take(i as int)),
                forall|k: int| chunk_start(n as int, k) && k < i ==> chunk_fits(start, items, k),
                i % 100 != 0 ==> end as int == (i - i % 100) + chunk_len(n as int, i - i % 100),
                i % 100 != 0 ==> i <= end <= n,
                i % 100 != 0 ==> fits_from(self@, items.subrange(i as int, end as int)),
            decreases n - i,
        {
            if i % DEFAULT_BATCH_SIZE == 0 {
                let len: usize = if n - i < DEFAULT_BATCH_SIZE { n - i } else { DEFAULT_BATCH_SIZE };
                if !self.chunk_can_apply(&fonts, i, i + len) {
                    proof {
                        assert(!chunk_fits(start, items, i as int));
                        assert(chunk_start(n as int, i as int));
                    }
                    return Err(FontgrepError::Cache("record identifiers exhausted".to_string()));
                }
                end = i + len;
                proof {
                    assert(chunk_fits(start, items, i as int));
                }
            }
            let item = &fonts[i];
            let ghost rest = items.subrange(i as int, end as int);
            proof {
                assert(items[i as int] == item_view(fonts@[i as int]));
                assert(items.take(i as int + 1).drop_last() =~= items.take(i as int));
                assert(rest[0] == items[i as int]);
                assert(rest.drop_first() =~= items.subrange(i + 1, end as int));
            }
            let r = self.update_font(item.0.as_str(), &item.1, item.2, item.3);
            proof {
                assert(r is Ok);
            }
            i = i + 1;
        }
        proof {
            assert(items.take(n as int) =~= items);
        }
        Ok(())
    }

    /// The paths of the stored fonts that satisfy the criteria under the
    /// store's rules, in store order.
    pub fn query(&self, criteria: &QueryCriteria) -> (r: crate::Result<Vec<String>>)
        ensures
            r matches Ok(v) && (crate::codepoints::string_views(v@) == matching_paths(self@.records, criteria@)),
    {
        let mut out: Vec<String> = Vec::new();
        let mut i: usize = 0;
        proof {
            assert(self@.records.take(0) =~= Seq::<RecordView>::empty());
            assert(crate::codepoints::string_views(out@) =~= Seq::<Seq<char>>::empty());
        }
        while i < self.records.len()
            invariant
                i <= self.records@.len(),
                crate::codepoints::string_views(out@) == matching_paths(self@.records.take(i as int), criteria@),
            decreases self.records.len() - i,
        {
            let rec = &self.records[i];
            proof {
                assert(self@.records.take(i as int + 1).drop_last() =~= self@.records.take(i as int));
                assert(self@.records.take(i as int + 1).last() == rec@);
            }
            if store_match(criteria, &rec.info) {
                let ghost before = out@;
                out.push(rec.path.clone());
                proof {
                    assert(crate::codepoints::string_views(out@) =~= crate::codepoints::string_views(before).push(rec.path@));
                }
            }
            i = i + 1;
        }
        proof {
            assert(self@.records.take(self@.records.len() as int) =~= self@.records);
        }
        Ok(out)
    }

    /// The paths of all stored fonts, in store order.
    pub fn get_all_font_paths(&self) -> (r: crate::Result<Vec<String>>)
        ensures
            r matches Ok(v) && (crate::codepoints::string_views(v@) == paths_of(self@.records)),
    {
        let mut out: Vec<String> = Vec::new();
        let mut i: usize = 0;
        while i < self.records.len()
            invariant
                i <= self.records@.len(),
                crate::codepoints::string_views(out@) == paths_of(self@.records.take(i as int)),
            decreases self.records.len() - i,
        {
            let ghost before = out@;
            out.push(self.records[i].path.clone());
            proof {
                assert(crate::codepoints::string_views(out@) =~= crate::codepoints::string_views(before).push(self@.records[i as int].path));
                assert(paths_of(self@.records.take(i as int + 1)) =~= paths_of(self@.records.take(i as int)).push(self@.records[i as int].path));
            }
            i = i + 1;
        }
        proof {
            assert(self@.records.take(self@.records.len() as int) =~= self@.records);
        }
        Ok(out)
    }

    /// Deletes every record whose path is not among `existing_paths`,
    /// together with its properties.
    pub fn clean_missing_fonts(&mut self, existing_paths: &Vec<String>) -> (r: crate::Result<()>)
        requires
            old(self).wf(),
        ensures
            r is Ok,
            final(self).wf(),
            final(self).spec_location() == old(self).spec_location(),
            final(self)@ == remove_missing_spec(old(self)@, crate::codepoints::string_views(existing_paths@)),
    {
        let ghost existing = crate::codepoints::string_views(existing_paths@);
        let mut kept: Vec<FontRecord> = Vec::new();
        let mut i: usize = 0;
        proof {
            assert(self@.records.take(0) =~= Seq::<RecordView>::empty());
            assert(record_views(kept@) =~= Seq::<RecordView>::empty());
        }
        while i < self.records.len()
            invariant
                i <= self.records@.len(),
                existing == crate::codepoints::string_views(existing_paths@),
                record_views(kept@) == keep_present(self@.records.take(i as int), existing),
            decreases self.records.len() - i,
        {
            let rec = &self.records[i];
            proof {
                assert(self@.records.take(i as int + 1).drop_last() =~= self@.records.take(i as int));
                assert(self@.records.take(i as int + 1).last() == rec@);
            }
            if crate::query::contains_str(existing_paths, &rec.path) {
                let ghost before = kept@;
                kept.push(rec.duplicate());
                proof {
                    assert(record_views(kept@) =~= record_views(before).push(rec@));
                }
            }
            i = i + 1;
        }
        proof {
            assert(self@.records.take(self@.records.len() as int) =~= self@.records);
            lemma_keep_present_wf(self@.records, existing, self@.next_id);
        }
        self.records = kept;
        Ok(())
    }
}

/// Whether rows can form a store: unique paths, unique identifiers, and
/// none of them the largest identifier.
pub open spec fn rows_valid(recs: Seq<RecordView>) -> bool {
    &&& paths_unique(recs)
    &&& forall|i: int, j: int|
        0 <= i < recs.len() && 0 <= j < recs.len() && i != j ==> recs[i].id != recs[j].id
    &&& forall|i: int| 0 <= i < recs.len() ==> (#[trigger] recs[i]).id < u64::MAX
}

impl FontCache {
    /// A store at `location` holding the given records, as read back from
    /// where they were kept. Fails if the location is empty or the rows
    /// repeat a path or an identifier, or use the largest identifier.
    pub fn from_records(location: &str, rows: Vec<FontRecord>) -> (r: crate::Result<FontCache>)
        ensures
            r is Ok <==> (location@.len() > 0 && rows_valid(record_views(rows@))),
            r matches Ok(c) ==> c.wf() && c@.records == record_views(rows@) && c.spec_location() == location@,
            location@.len() == 0 ==> r matches Err(FontgrepError::Config(_)),
            location@.len() > 0 && !rows_valid(record_views(rows@)) ==> r matches Err(FontgrepError::Cache(_)),
    {
        if location.is_empty() {
            return Err(FontgrepError::Config("no cache location given".to_string()));
        }
        let ghost recs = record_views(rows@);
        let n = rows.len();
        let mut next: u64 = 0;
        let mut i: usize = 0;
        while i < n
            invariant
                n == rows@.len(),
                recs == record_views(rows@),
                location@.len() > 0,
                i <= n,
                forall|a: int, b: int| 0 <= a < i && 0 <= b < n && a != b ==> recs[a].path != recs[b].path && recs[a].id != recs[b].id,
                forall|a: int| 0 <= a < i ==> (#[trigger] recs[a]).id < next,
                forall|a: int| 0 <= a < i ==> (#[trigger] recs[a]).id < u64::MAX,
            decreases n - i,
        {
            proof {
                assert(recs[i as int] == rows@[i as int]@);
            }
            if rows[i].id == u64::MAX {
                proof {
                    assert(!(recs[i as int].id < u64::MAX));
                }
                return Err(FontgrepError::Cache("record identifier out of range".to_string()));
            }
            let mut j: usize = 0;
            while j < n
                invariant
                    n == rows@.len(),
                    recs == record_views(rows@),
                    location@.len() > 0,
                    i < n,
                    j <= n,
                    forall|b: int| 0 <= b < j && b != i ==> recs[i as int].path != recs[b].path && recs[i as int].id != recs[b].id,
                decreases n - j,
            {
                proof {
                    assert(recs[j as int] == rows@[j as int]@);
                    assert(recs[i as int] == rows@[i as int]@);
                }
                if j != i && (rows[j].path == rows[i].path || rows[j].id == rows[i].id) {
                    proof {
                        assert(recs[j as int].path == recs[i as int].path || recs[j as int].id == recs[i as int].id);
                        assert(!rows_valid(recs));
                    }
                    return Err(FontgrepError::Cache("repeated path or identifier".to_string()));
                }
                j = j + 1;
            }
            if rows[i].id >= next {
                next = rows[i].id + 1;
            }
            i = i + 1;
        }
        let c = FontCache { records: rows, next_id: next, location: location.to_string() };
        proof {
            assert(c@.records == recs);
            assert forall|a: int| 0 <= a < recs.len() implies (#[trigger] recs[a]).id < c@.next_id by {}
        }
        Ok(c)
    }
}

} // verus!
