//! Long-term memory: a list of tagged text items with keyword/tag search.
//!
//! Persistence (reading and writing the JSON file) is done by the caller;
//! the store here holds the items and the path they are kept under.

use vstd::prelude::*;
use crate::text::{
    chars_of, contains, contains_seq, contains_string, copy_strings, lowercase, split_words,
    owned, str_views, string_of, to_lowercase, views, words,
};
use crate::rank::{positions_increase, sort_desc, sort_desc_stable, Ranked};

verus! {

/// One remembered item.
#[derive(Debug, Clone)]
pub struct MemoryItem {
    pub id: String,
    pub content: String,
    pub tags: Vec<String>,
    pub timestamp: u64,
    pub metadata: Vec<(String, String)>,
}

/// The mathematical value of a [`MemoryItem`].
pub struct MemoryItemView {
    pub id: Seq<char>,
    pub content: Seq<char>,
    pub tags: Seq<Seq<char>>,
    pub timestamp: u64,
    pub metadata: Seq<(Seq<char>, Seq<char>)>,
}

pub open spec fn pair_views(v: Seq<(String, String)>) -> Seq<(Seq<char>, Seq<char>)> {
    v.map_values(|p: (String, String)| (p.0@, p.1@))
}

impl View for MemoryItem {
    type V = MemoryItemView;

    open spec fn view(&self) -> MemoryItemView {
        MemoryItemView {
            id: self.id@,
            content: self.content@,
            tags: str_views(self.tags@),
            timestamp: self.timestamp,
            metadata: pair_views(self.metadata@),
        }
    }
}

/// The views of a sequence of items.
/// No key occurs twice among an item's metadata: it is a map from keys to
/// values.
pub open spec fn keys_distinct(m: Seq<(Seq<char>, Seq<char>)>) -> bool {
    m.map_values(|p: (Seq<char>, Seq<char>)| p.0).no_duplicates()
}

pub open spec fn item_views(v: Seq<MemoryItem>) -> Seq<MemoryItemView> {
    v.map_values(|x: MemoryItem| x@)
}

fn copy_pairs(v: &Vec<(String, String)>) -> (r: Vec<(String, String)>)
    ensures
        pair_views(r@) == pair_views(v@),
{
    let mut r: Vec<(String, String)> = Vec::new();
    let mut i: usize = 0;
    while i < v.len()
        invariant
            i <= v.len(),
            r@.len() == i,
            forall|j: int| 0 <= j < i ==> r@[j].0@ == v@[j].0@ && r@[j].1@ == v@[j].1@,
        decreases v.len() - i,
    {
        let a = v[i].0.clone();
        let b = v[i].1.clone();
        r.push((a, b));
        i += 1;
    }
    assert(pair_views(r@) =~= pair_views(v@));
    r
}

impl MemoryItem {
    /// A copy of the item.
    pub fn duplicate(&self) -> (r: MemoryItem)
        ensures
            r@ == self@,
    {
        let tags = copy_strings(&self.tags);
        let metadata = copy_pairs(&self.metadata);
        assert(str_views(tags@) =~= str_views(self.tags@));
        MemoryItem {
            id: self.id.clone(),
            content: self.content.clone(),
            tags,
            timestamp: self.timestamp,
            metadata,
        }
    }
}

/// A search request: lower-cased keywords, wanted tags and a result limit.
#[derive(Debug, Clone)]
pub struct MemoryQuery {
    pub keywords: Vec<String>,
    pub tags: Vec<String>,
    pub limit: usize,
}

impl MemoryQuery {
    /// Splits `query` at whitespace and lower-cases each word; no tags,
    /// limit 10.
    pub fn new(query: &str) -> (r: Self)
        ensures
            str_views(r.keywords@) == words(query@).map_values(|w: Seq<char>| lowercase(w)),
            r.tags@.len() == 0,
            r.limit == 10,
    {
        let q = chars_of(query);
        let ws = split_words(q.as_slice());
        let mut keywords: Vec<String> = Vec::new();
        let mut i: usize = 0;
        while i < ws.len()
            invariant
                i <= ws.len(),
                views(ws@) == words(query@),
                keywords@.len() == i,
                forall|j: int| 0 <= j < i ==> keywords@[j]@ == lowercase(ws@[j]@),
            decreases ws.len() - i,
        {
            let lw = to_lowercase(ws[i].as_slice());
            let s = string_of(lw.as_slice());
            keywords.push(s);
            i += 1;
        }
        assert(str_views(keywords@) =~= words(query@).map_values(|w: Seq<char>| lowercase(w)));
        MemoryQuery { keywords, tags: Vec::new(), limit: 10 }
    }

    /// The same query with `tags` as its tags.
    pub fn with_tags(self, tags: Vec<String>) -> (r: Self)
        ensures
            r.tags@ == tags@,
            r.keywords@ == self.keywords@,
            r.limit == self.limit,
    {
        let mut q = self;
        q.tags = tags;
        q
    }

    /// The same query with `limit` as its limit.
    pub fn with_limit(self, limit: usize) -> (r: Self)
        ensures
            r.limit == limit,
            r.keywords@ == self.keywords@,
            r.tags@ == self.tags@,
    {
        let mut q = self;
        q.limit = limit;
        q
    }
}

// ---------------------------------------------------------------------------
// Scoring
// ---------------------------------------------------------------------------

/// How many of the keywords occur in `lc`.
pub open spec fn kw_hits(lc: Seq<char>, kws: Seq<Seq<char>>) -> nat
    decreases kws.len(),
{
    if kws.len() == 0 {
        0
    } else {
        kw_hits(lc, kws.drop_last()) + if contains_seq(lc, kws.last()) {
            1nat
        } else {
            0nat
        }
    }
}

/// How many of the wanted tags the item carries.
pub open spec fn tag_hits(tags: Seq<Seq<char>>, wanted: Seq<Seq<char>>) -> nat
    decreases wanted.len(),
{
    if wanted.len() == 0 {
        0
    } else {
        tag_hits(tags, wanted.drop_last()) + if tags.contains(wanted.last()) {
            1nat
        } else {
            0nat
        }
    }
}

/// An item's relevance: 10 for each keyword found in its lower-cased
/// content, 20 for each wanted tag it carries.
pub open spec fn score(it: MemoryItemView, kws: Seq<Seq<char>>, wanted: Seq<Seq<char>>) -> nat {
    10 * kw_hits(lowercase(it.content), kws) + 20 * tag_hits(it.tags, wanted)
}

/// The items with a positive score, as `(score, position)` in store order.
pub open spec fn candidates(
    items: Seq<MemoryItemView>,
    kws: Seq<Seq<char>>,
    wanted: Seq<Seq<char>>,
) -> Seq<Ranked>
    decreases items.len(),
{
    if items.len() == 0 {
        seq![]
    } else {
        let s = score(items.last(), kws, wanted);
        candidates(items.drop_last(), kws, wanted) + if s > 0 {
            seq![(s as u64, (items.len() - 1) as usize)]
        } else {
            seq![]
        }
    }
}

/// What a search returns: the positive-score items ordered by descending
/// score (store order among equal scores), at most `limit` of them.
pub open spec fn search_result(
    items: Seq<MemoryItemView>,
    kws: Seq<Seq<char>>,
    wanted: Seq<Seq<char>>,
    limit: nat,
) -> Seq<MemoryItemView> {
    let c = sort_desc(candidates(items, kws, wanted));
    let k = if limit < c.len() {
        limit
    } else {
        c.len()
    };
    Seq::new(k, |i: int| items[c[i].1 as int])
}

/// `(timestamp, position)` for every item, in store order.
pub open spec fn time_keys(items: Seq<MemoryItemView>) -> Seq<Ranked> {
    Seq::new(items.len(), |i: int| (items[i].timestamp, i as usize))
}

/// What `get_recent` returns: the items by descending timestamp (store
/// order among equal timestamps), at most `limit` of them.
pub open spec fn recent_result(items: Seq<MemoryItemView>, limit: nat) -> Seq<MemoryItemView> {
    let c = sort_desc(time_keys(items));
    let k = if limit < c.len() {
        limit
    } else {
        c.len()
    };
    Seq::new(k, |i: int| items[c[i].1 as int])
}

/// The items whose id is not `id`, in order.
pub open spec fn without_id(items: Seq<MemoryItemView>, id: Seq<char>) -> Seq<MemoryItemView> {
    items.filter(|m: MemoryItemView| m.id != id)
}

/// `i` is the first item with this id.
pub open spec fn is_first_id(items: Seq<MemoryItemView>, id: Seq<char>, i: int) -> bool {
    0 <= i < items.len() && items[i].id == id && forall|j: int| 0 <= j < i ==> items[j].id != id
}

/// Every item's score fits in an `i32`, the type the score is summed in.
pub open spec fn scores_fit(items: Seq<MemoryItemView>, kws: Seq<Seq<char>>, wanted: Seq<Seq<char>>) -> bool {
    forall|i: int| 0 <= i < items.len() ==> #[trigger] score(items[i], kws, wanted) <= i32::MAX
}

/// Every candidate names an item in range and carries that item's
/// (positive) score; candidates are listed in store order.
pub proof fn lemma_candidates(
    items: Seq<MemoryItemView>,
    kws: Seq<Seq<char>>,
    wanted: Seq<Seq<char>>,
)
    requires
        scores_fit(items, kws, wanted),
        items.len() <= usize::MAX,
    ensures
        forall|k: int|
            0 <= k < candidates(items, kws, wanted).len() ==> {
                let e = #[trigger] candidates(items, kws, wanted)[k];
                &&& (e.1 as int) < items.len()
                &&& e.0 as int == score(items[e.1 as int], kws, wanted)
                &&& e.0 > 0
            },
        positions_increase(candidates(items, kws, wanted)),
    decreases items.len(),
{
    if items.len() > 0 {
        let t = items.drop_last();
        assert forall|i: int| 0 <= i < t.len() implies #[trigger] score(t[i], kws, wanted)
            <= i32::MAX by {
            assert(t[i] == items[i]);
        }
        lemma_candidates(t, kws, wanted);
        let c = candidates(items, kws, wanted);
        let ct = candidates(t, kws, wanted);
        let s = score(items.last(), kws, wanted);
        assert(items[items.len() - 1] == items.last());
        assert(s <= i32::MAX);
        assert forall|k: int| 0 <= k < c.len() implies {
            let e = #[trigger] c[k];
            &&& (e.1 as int) < items.len()
            &&& e.0 as int == score(items[e.1 as int], kws, wanted)
            &&& e.0 > 0
        } by {
            if k < ct.len() {
                assert(c[k] == ct[k]);
                assert(items[ct[k].1 as int] == t[ct[k].1 as int]);
            } else {
                assert(c[k] == (s as u64, (items.len() - 1) as usize));
                assert(items[items.len() - 1] == items.last());
            }
        }
        assert forall|i: int, j: int| 0 <= i < j < c.len() implies c[i].1 < c[j].1 by {
            if j < ct.len() {
                assert(c[i] == ct[i]);
                assert(c[j] == ct[j]);
            } else {
                assert(c[i] == ct[i]);
                assert((ct[i].1 as int) < t.len());
            }
        }
    }
}


// ---------------------------------------------------------------------------
// The store
// ---------------------------------------------------------------------------

/// A lower-case hexadecimal digit.
pub open spec fn is_lower_hex(c: char) -> bool {
    ('0' <= c && c <= '9') || ('a' <= c && c <= 'f')
}

/// The text of a version 4 UUID in hyphenated form: 36 characters, hyphens
/// at 8, 13, 18 and 23, lower-case hex digits elsewhere, the version digit
/// `4` at 14 and the variant digit (`8`, `9`, `a` or `b`) at 19.
pub open spec fn is_uuid_v4_text(s: Seq<char>) -> bool {
    &&& s.len() == 36
    &&& forall|i: int|
        0 <= i < 36 ==> if i == 8 || i == 13 || i == 18 || i == 23 {
            #[trigger] s[i] == '-'
        } else {
            is_lower_hex(s[i])
        }
    &&& s[14] == '4'
    &&& (s[19] == '8' || s[19] == '9' || s[19] == 'a' || s[19] == 'b')
}

/// Wraps `uuid::Uuid::new_v4` formatted with `to_string`: the random bits
/// are left open, the hyphenated lower-case layout with the version and
/// variant digits (as `uuid`'s `new_v4` and its `Display` write them) is
/// claimed.
#[verifier::external_body]
fn new_uuid_v4() -> (s: String)
    ensures
        is_uuid_v4_text(s@),
{
    uuid::Uuid::new_v4().to_string()
}

/// Reads the system clock (std's `SystemTime::now` since `UNIX_EPOCH`, in
/// whole seconds, 0 if the clock is before the epoch). The value depends
/// on the time, so nothing is claimed of it.
#[verifier::external_body]
fn unix_time_secs() -> u64 {
    std::time::SystemTime::now().duration_since(std::time::UNIX_EPOCH).unwrap_or_default().as_secs()
}

/// The items, kept in insertion order, and the path of their JSON file.
pub struct MemoryStore {
    items: Vec<MemoryItem>,
    storage_path: String,
}

impl View for MemoryStore {
    type V = Seq<MemoryItemView>;

    closed spec fn view(&self) -> Seq<MemoryItemView> {
        item_views(self.items@)
    }
}

impl MemoryStore {
    /// The path of the store's JSON file.
    pub closed spec fn path(&self) -> Seq<char> {
        self.storage_path@
    }

    /// An empty store kept under `path`.
    pub fn with_path(path: &str) -> (r: Result<Self, String>)
        ensures
            r is Ok,
            r matches Ok(st) ==> st@.len() == 0 && st.path() == path@,
    {
        let st = MemoryStore { items: Vec::new(), storage_path: owned(path) };
        assert(st@ =~= Seq::<MemoryItemView>::empty());
        Ok(st)
    }

    /// The path of the store's JSON file.
    pub fn storage_path(&self) -> (r: String)
        ensures
            r@ == self.path(),
    {
        self.storage_path.clone()
    }

    /// Replaces the items (with those read back from the file).
    pub fn load_items(&mut self, items: Vec<MemoryItem>)
        requires
            forall|i: int| 0 <= i < items@.len() ==> keys_distinct(#[trigger] items@[i]@.metadata),
        ensures
            final(self)@ == item_views(items@),
            final(self).path() == old(self).path(),
    {
        self.items = items;
    }

    /// Adds an item with a fresh random version 4 UUID as its id and the
    /// current time; returns the id.
    pub fn add(&mut self, content: &str, tags: &[String]) -> (id: String)
        ensures
            final(self)@.len() == old(self)@.len() + 1,
            final(self)@.take(old(self)@.len() as int) == old(self)@,
            final(self)@.last().id == id@,
            is_uuid_v4_text(id@),
            final(self)@.last().content == content@,
            final(self)@.last().tags == str_views(tags@),
            final(self)@.last().metadata.len() == 0,
            final(self).path() == old(self).path(),
    {
        let none: Vec<(String, String)> = Vec::new();
        assert(pair_views(none@).map_values(|p: (Seq<char>, Seq<char>)| p.0) =~= Seq::<Seq<char>>::empty());
        self.add_with_metadata(content, tags, none)
    }

    /// Adds an item with a fresh random id, the current time and the given
    /// metadata; returns the id.
    pub fn add_with_metadata(
        &mut self,
        content: &str,
        tags: &[String],
        metadata: Vec<(String, String)>,
    ) -> (id: String)
        requires
            keys_distinct(pair_views(metadata@)),
        ensures
            final(self)@.len() == old(self)@.len() + 1,
            final(self)@.take(old(self)@.len() as int) == old(self)@,
            final(self)@.last().id == id@,
            is_uuid_v4_text(id@),
            final(self)@.last().content == content@,
            final(self)@.last().tags == str_views(tags@),
            final(self)@.last().metadata == pair_views(metadata@),
            final(self).path() == old(self).path(),
    {
        let id = new_uuid_v4();
        let timestamp = unix_time_secs();
        let mut tag_vec: Vec<String> = Vec::new();
        let mut i: usize = 0;
        while i < tags.len()
            invariant
                i <= tags.len(),
                tag_vec@.len() == i,
                forall|j: int| 0 <= j < i ==> tag_vec@[j]@ == tags@[j]@,
            decreases tags.len() - i,
        {
            tag_vec.push(tags[i].clone());
            i += 1;
        }
        assert(str_views(tag_vec@) =~= str_views(tags@));
        let item = MemoryItem {
            id: id.clone(),
            content: owned(content),
            tags: tag_vec,
            timestamp,
            metadata,
        };
        let ghost before = self.items@;
        self.items.push(item);
        proof {
            assert(item_views(self.items@).take(before.len() as int) =~= item_views(before));
        }
        id
    }

    /// How many of `query`'s keywords and tags the item at `i` matches.
    fn item_hits(&self, i: usize, query: &MemoryQuery) -> (h: (u64, u64))
        requires
            i < self.items@.len(),
        ensures
            h.0 as int == kw_hits(lowercase(self@[i as int].content), str_views(query.keywords@)),
            h.1 as int == tag_hits(self@[i as int].tags, str_views(query.tags@)),
    {
        let item = &self.items[i];
        let content = chars_of(item.content.as_str());
        let lc = to_lowercase(content.as_slice());
        let ghost kws = str_views(query.keywords@);
        let ghost wanted = str_views(query.tags@);
        let mut kh: u64 = 0;
        let mut k: usize = 0;
        while k < query.keywords.len()
            invariant
                k <= query.keywords.len(),
                kws == str_views(query.keywords@),
                lc@ == lowercase(item.content@),
                kh == kw_hits(lc@, kws.take(k as int)),
                kh <= k,
            decreases query.keywords.len() - k,
        {
            let kw = chars_of(query.keywords[k].as_str());
            let hit = contains(lc.as_slice(), kw.as_slice());
            proof {
                assert(kws.take(k + 1).drop_last() =~= kws.take(k as int));
                assert(kws.take(k + 1).last() == kw@);
            }
            if hit {
                kh = kh + 1;
            }
            k += 1;
        }
        let mut th: u64 = 0;
        let mut t: usize = 0;
        while t < query.tags.len()
            invariant
                t <= query.tags.len(),
                wanted == str_views(query.tags@),
                th == tag_hits(str_views(item.tags@), wanted.take(t as int)),
                th <= t,
            decreases query.tags.len() - t,
        {
            let hit = contains_string(&item.tags, &query.tags[t]);
            proof {
                assert(wanted.take(t + 1).drop_last() =~= wanted.take(t as int));
                assert(wanted.take(t + 1).last() == query.tags@[t as int]@);
            }
            if hit {
                th = th + 1;
            }
            t += 1;
        }
        proof {
            assert(kws.take(kws.len() as int) =~= kws);
            assert(wanted.take(wanted.len() as int) =~= wanted);
            assert(self@[i as int] == item@);
        }
        (kh, th)
    }

    /// Whether every item's score for `query` fits in an `i32`, as
    /// [`MemoryStore::search`] needs.
    pub fn search_fits(&self, query: &MemoryQuery) -> (b: bool)
        ensures
            b == scores_fit(self@, str_views(query.keywords@), str_views(query.tags@)),
    {
        let ghost kws = str_views(query.keywords@);
        let ghost wanted = str_views(query.tags@);
        let mut i: usize = 0;
        while i < self.items.len()
            invariant
                i <= self.items.len(),
                kws == str_views(query.keywords@),
                wanted == str_views(query.tags@),
                forall|j: int| 0 <= j < i ==> #[trigger] score(self@[j], kws, wanted) <= i32::MAX,
            decreases self.items.len() - i,
        {
            let (kh, th) = self.item_hits(i, query);
            if (kh as u128) * 10 + (th as u128) * 20 > 2147483647u128 {
                assert(score(self@[i as int], kws, wanted) > i32::MAX);
                return false;
            }
            i += 1;
        }
        true
    }

    /// The score of the item at `i` for `query`.
    fn item_score(&self, i: usize, query: &MemoryQuery) -> (s: u64)
        requires
            i < self.items@.len(),
            score(self@[i as int], str_views(query.keywords@), str_views(query.tags@)) <= i32::MAX,
        ensures
            s as int == score(self@[i as int], str_views(query.keywords@), str_views(query.tags@)),
    {
        let (kh, th) = self.item_hits(i, query);
        10 * kh + 20 * th
    }

    /// The items matching `query`: every item scores 10 per keyword found
    /// in its lower-cased content and 20 per wanted tag it carries; those
    /// with a positive score come back by descending score (store order
    /// among equal scores), at most `query.limit` of them.
    pub fn search(&self, query: &MemoryQuery) -> (r: Vec<MemoryItem>)
        requires
            scores_fit(self@, str_views(query.keywords@), str_views(query.tags@)),
        ensures
            item_views(r@) == search_result(
                self@,
                str_views(query.keywords@),
                str_views(query.tags@),
                query.limit as nat,
            ),
    {
        let ghost kws = str_views(query.keywords@);
        let ghost wanted = str_views(query.tags@);
        let mut cands: Vec<Ranked> = Vec::new();
        let mut i: usize = 0;
        while i < self.items.len()
            invariant
                i <= self.items.len(),
                kws == str_views(query.keywords@),
                wanted == str_views(query.tags@),
                scores_fit(self@, kws, wanted),
                cands@ == candidates(self@.take(i as int), kws, wanted),
            decreases self.items.len() - i,
        {
            let s = self.item_score(i, query);
            proof {
                let t = self@.take(i + 1);
                assert(t.drop_last() =~= self@.take(i as int));
                assert(t.last() == self@[i as int]);
            }
            if s > 0 {
                cands.push((s, i));
            }
            i += 1;
            proof {
                let t = self@.take(i as int);
                if s > 0 {
                    assert(cands@ =~= candidates(t.drop_last(), kws, wanted) + seq![(s, (i - 1) as usize)]);
                } else {
                    assert(cands@ =~= candidates(t.drop_last(), kws, wanted) + Seq::<Ranked>::empty());
                }
            }
        }
        assert(self@.take(self.items.len() as int) =~= self@);
        let sorted = sort_desc_stable(&cands);
        proof {
            lemma_candidates(self@, kws, wanted);
            crate::rank::lemma_sort_elems(cands@);
        }
        let k = if query.limit < sorted.len() {
            query.limit
        } else {
            sorted.len()
        };
        let mut out: Vec<MemoryItem> = Vec::new();
        let mut j: usize = 0;
        while j < k
            invariant
                j <= k <= sorted.len(),
                sorted@ == sort_desc(cands@),
                cands@ == candidates(self@, kws, wanted),
                forall|m: int| 0 <= m < sorted@.len() ==> cands@.contains(#[trigger] sorted@[m]),
                forall|m: int|
                    0 <= m < cands@.len() ==> (#[trigger] cands@[m].1 as int) < self@.len(),
                out@.len() == j,
                forall|m: int| 0 <= m < j ==> #[trigger] out@[m]@ == self@[sorted@[m].1 as int],
            decreases k - j,
        {
            let idx = sorted[j].1;
            proof {
                let e = sorted@[j as int];
                let n = choose|n: int| 0 <= n < cands@.len() && cands@[n] == e;
                assert(cands@[n].1 == idx);
            }
            let it = self.items[idx].duplicate();
            assert(self@[idx as int] == self.items@[idx as int]@);
            out.push(it);
            j += 1;
        }
        proof {
            let spec_r = search_result(self@, kws, wanted, query.limit as nat);
            assert(item_views(out@) =~= spec_r);
        }
        out
    }

    /// The item with this id (the first one, if several share it).
    pub fn get_by_id(&self, id: &str) -> (r: Option<MemoryItem>)
        ensures
            match r {
                Some(it) => exists|i: int| is_first_id(self@, id@, i) && it@ == self@[i],
                None => forall|i: int| 0 <= i < self@.len() ==> self@[i].id != id@,
            },
    {
        let key = owned(id);
        let mut i: usize = 0;
        while i < self.items.len()
            invariant
                i <= self.items.len(),
                key@ == id@,
                forall|j: int| 0 <= j < i ==> self@[j].id != id@,
            decreases self.items.len() - i,
        {
            assert(self@[i as int] == self.items@[i as int]@);
            if self.items[i].id == key {
                let it = self.items[i].duplicate();
                assert(is_first_id(self@, id@, i as int));
                return Some(it);
            }
            i += 1;
        }
        None
    }

    /// A copy of every item, in store order.
    pub fn get_all(&self) -> (r: Vec<MemoryItem>)
        ensures
            item_views(r@) == self@,
    {
        let mut out: Vec<MemoryItem> = Vec::new();
        let mut i: usize = 0;
        while i < self.items.len()
            invariant
                i <= self.items.len(),
                out@.len() == i,
                forall|j: int| 0 <= j < i ==> #[trigger] out@[j]@ == self@[j],
            decreases self.items.len() - i,
        {
            assert(self@[i as int] == self.items@[i as int]@);
            out.push(self.items[i].duplicate());
            i += 1;
        }
        assert(item_views(out@) =~= self@);
        out
    }

    /// The `limit` most recent items: by descending timestamp, store order
    /// among equal timestamps.
    pub fn get_recent(&self, limit: usize) -> (r: Vec<MemoryItem>)
        ensures
            item_views(r@) == recent_result(self@, limit as nat),
    {
        let mut keys: Vec<Ranked> = Vec::new();
        let mut i: usize = 0;
        while i < self.items.len()
            invariant
                i <= self.items.len(),
                keys@ == time_keys(self@).take(i as int),
            decreases self.items.len() - i,
        {
            assert(self@[i as int] == self.items@[i as int]@);
            keys.push((self.items[i].timestamp, i));
            i += 1;
            assert(keys@ =~= time_keys(self@).take(i as int));
        }
        assert(keys@ =~= time_keys(self@));
        let sorted = sort_desc_stable(&keys);
        proof {
            crate::rank::lemma_sort_elems(keys@);
        }
        let k = if limit < sorted.len() {
            limit
        } else {
            sorted.len()
        };
        let mut out: Vec<MemoryItem> = Vec::new();
        let mut j: usize = 0;
        while j < k
            invariant
                j <= k <= sorted.len(),
                sorted@ == sort_desc(keys@),
                keys@ == time_keys(self@),
                forall|m: int| 0 <= m < sorted@.len() ==> keys@.contains(#[trigger] sorted@[m]),
                out@.len() == j,
                forall|m: int| 0 <= m < j ==> #[trigger] out@[m]@ == self@[sorted@[m].1 as int],
            decreases k - j,
        {
            let idx = sorted[j].1;
            proof {
                let e = sorted@[j as int];
                let n = choose|n: int| 0 <= n < keys@.len() && keys@[n] == e;
                assert(keys@[n].1 == idx);
            }
            let it = self.items[idx].duplicate();
            assert(self@[idx as int] == self.items@[idx as int]@);
            out.push(it);
            j += 1;
        }
        assert(item_views(out@) =~= recent_result(self@, limit as nat));
        out
    }

    /// Removes every item with this id; returns whether any was removed.
    pub fn remove(&mut self, id: &str) -> (removed: bool)
        ensures
            final(self)@ == without_id(old(self)@, id@),
            removed == (final(self)@.len() < old(self)@.len()),
            final(self).path() == old(self).path(),
    {
        reveal(Seq::filter);
        let key = owned(id);
        let ghost all = self@;
        let mut kept: Vec<MemoryItem> = Vec::new();
        let mut i: usize = 0;
        let len_before = self.items.len();
        while i < self.items.len()
            invariant
                i <= self.items.len(),
                key@ == id@,
                all == self@,
                len_before == self@.len(),
                item_views(kept@) == without_id(all.take(i as int), id@),
                kept@.len() <= i,
            decreases self.items.len() - i,
        {
            proof {
                reveal(Seq::filter);
                let t = all.take(i + 1);
                assert(t.drop_last() =~= all.take(i as int));
                assert(t.last() == self.items@[i as int]@);
                assert(without_id(t, id@) == if t.last().id != id@ {
                    without_id(all.take(i as int), id@).push(t.last())
                } else {
                    without_id(all.take(i as int), id@)
                });
            }
            if self.items[i].id != key {
                let it = self.items[i].duplicate();
                let ghost kv = kept@;
                kept.push(it);
                proof {
                    assert(item_views(kept@) =~= item_views(kv).push(it@));
                }
            }
            i += 1;
        }
        assert(all.take(len_before as int) =~= all);
        self.items = kept;
        self.items.len() < len_before
    }

    /// Number of items.
    pub fn count(&self) -> (n: usize)
        ensures
            n == self@.len(),
    {
        self.items.len()
    }

    /// Removes every item.
    pub fn clear(&mut self)
        ensures
            final(self)@.len() == 0,
            final(self).path() == old(self).path(),
    {
        self.items = Vec::new();
        assert(self@ =~= Seq::<MemoryItemView>::empty());
    }
}


// ---------------------------------------------------------------------------
// Laws
// ---------------------------------------------------------------------------

/// Search results are ranked: every returned item has a positive score,
/// scores never increase along the results, and there are
/// `min(limit, number of positive-score items)` of them.
pub proof fn lemma_search_ranked(
    items: Seq<MemoryItemView>,
    kws: Seq<Seq<char>>,
    wanted: Seq<Seq<char>>,
    limit: nat,
)
    requires
        scores_fit(items, kws, wanted),
        items.len() <= usize::MAX,
    ensures
        ({
            let r = search_result(items, kws, wanted, limit);
            let n = candidates(items, kws, wanted).len();
            &&& r.len() == if limit < n {
                limit
            } else {
                n
            }
            &&& forall|i: int| 0 <= i < r.len() ==> score(#[trigger] r[i], kws, wanted) > 0
            &&& forall|i: int, j: int|
                0 <= i < j < r.len() ==> score(#[trigger] r[i], kws, wanted) >= score(
                    #[trigger] r[j],
                    kws,
                    wanted,
                )
        }),
{
    let c = candidates(items, kws, wanted);
    lemma_candidates(items, kws, wanted);
    crate::rank::lemma_sort_elems(c);
    crate::rank::lemma_sort_is_desc(c);
    let sc = sort_desc(c);
    let r = search_result(items, kws, wanted, limit);
    assert forall|i: int| 0 <= i < r.len() implies score(#[trigger] r[i], kws, wanted) > 0 && r[i]
        == items[sc[i].1 as int] && sc[i].0 as int == score(r[i], kws, wanted) by {
        let m = choose|m: int| 0 <= m < c.len() && c[m] == sc[i];
        assert(c[m] == sc[i]);
    }
    assert forall|i: int, j: int| 0 <= i < j < r.len() implies score(#[trigger] r[i], kws, wanted)
        >= score(#[trigger] r[j], kws, wanted) by {
        assert(sc[i].0 >= sc[j].0);
    }
}

/// Among results with equal scores, the store order is kept: the positions
/// behind the results increase wherever neighbouring scores are equal.
pub proof fn lemma_search_stable(
    items: Seq<MemoryItemView>,
    kws: Seq<Seq<char>>,
    wanted: Seq<Seq<char>>,
)
    requires
        scores_fit(items, kws, wanted),
        items.len() <= usize::MAX,
    ensures
        crate::rank::ties_in_order(sort_desc(candidates(items, kws, wanted))),
{
    lemma_candidates(items, kws, wanted);
    crate::rank::lemma_sort_stable(candidates(items, kws, wanted));
}

/// The store positions of the items `get_recent` returns, in order.
pub open spec fn recent_positions(items: Seq<MemoryItemView>, limit: nat) -> Seq<int> {
    let c = sort_desc(time_keys(items));
    Seq::new(recent_result(items, limit).len(), |i: int| c[i].1 as int)
}

/// `get_recent` lists items by non-increasing timestamp and returns
/// `min(limit, number of items)` of them: distinct items of the store,
/// equal timestamps in store order, and every item left out is no newer
/// than the last one returned.
pub proof fn lemma_recent_ordered(items: Seq<MemoryItemView>, limit: nat)
    requires
        items.len() <= usize::MAX,
    ensures
        ({
            let r = recent_result(items, limit);
            let pos = recent_positions(items, limit);
            &&& r.len() == if limit < items.len() {
                limit
            } else {
                items.len()
            }
            &&& forall|i: int, j: int|
                0 <= i < j < r.len() ==> (#[trigger] r[i]).timestamp >= (#[trigger] r[j]).timestamp
            &&& pos.len() == r.len()
            &&& forall|i: int|
                0 <= i < r.len() ==> 0 <= #[trigger] pos[i] < items.len() && r[i] == items[pos[i]]
            &&& forall|i: int, j: int| 0 <= i < j < r.len() ==> #[trigger] pos[i] != #[trigger] pos[j]
            &&& forall|i: int, j: int|
                0 <= i < j < r.len() && (#[trigger] r[i]).timestamp == (#[trigger] r[j]).timestamp
                    ==> pos[i] < pos[j]
            &&& forall|p: int|
                #![trigger pos.contains(p)]
                0 <= p < items.len() && !pos.contains(p) ==> r.len() == limit && (r.len() > 0
                    ==> items[p].timestamp <= r[r.len() - 1].timestamp)
        }),
{
    broadcast use vstd::seq_lib::group_to_multiset_ensures;

    let c = time_keys(items);
    crate::rank::lemma_sort_elems(c);
    crate::rank::lemma_sort_is_desc(c);
    crate::rank::lemma_sort_permutes(c);
    assert(crate::rank::positions_increase(c));
    crate::rank::lemma_sort_stable(c);
    let sc = sort_desc(c);
    let r = recent_result(items, limit);
    let pos = recent_positions(items, limit);
    assert forall|i: int| 0 <= i < sc.len() implies 0 <= (#[trigger] sc[i]).1 < items.len() && sc[i]
        == c[sc[i].1 as int] by {
        let m = choose|m: int| 0 <= m < c.len() && c[m] == sc[i];
        assert(c[m] == sc[i]);
    }
    assert forall|i: int| 0 <= i < r.len() implies #[trigger] r[i] == items[sc[i].1 as int]
        && sc[i].0 == r[i].timestamp by {
        assert(sc[i] == c[sc[i].1 as int]);
    }
    assert forall|i: int, j: int| 0 <= i < j < r.len() implies (#[trigger] r[i]).timestamp >= (
    #[trigger] r[j]).timestamp by {
        assert(sc[i].0 >= sc[j].0);
        assert(r[i] == items[sc[i].1 as int]);
        assert(r[j] == items[sc[j].1 as int]);
    }
    assert forall|i: int| 0 <= i < r.len() implies 0 <= #[trigger] pos[i] < items.len() && r[i]
        == items[pos[i]] by {
        assert(sc[i] == c[sc[i].1 as int]);
        assert(r[i] == items[sc[i].1 as int]);
    }
    assert forall|i: int, j: int| 0 <= i < j < r.len() implies #[trigger] pos[i] != #[trigger] pos[j] by {
        if pos[i] == pos[j] {
            assert(sc[i] == c[sc[i].1 as int]);
            assert(sc[j] == c[sc[j].1 as int]);
            assert(sc[i] == sc[j]);
        }
    }
    assert forall|i: int, j: int|
        0 <= i < j < r.len() && (#[trigger] r[i]).timestamp == (#[trigger] r[j]).timestamp implies pos[i]
        < pos[j] by {
        assert(r[i] == items[sc[i].1 as int]);
        assert(r[j] == items[sc[j].1 as int]);
        assert(sc[i].0 == sc[j].0);
    }
    assert forall|p: int|
        #![trigger pos.contains(p)]
        0 <= p < items.len() && !pos.contains(p) implies r.len() == limit && (r.len() > 0
            ==> items[p].timestamp <= r[r.len() - 1].timestamp) by {
        assert(c[p] == (items[p].timestamp, p as usize));
        assert(c.contains(c[p]));
        assert(c.to_multiset().count(c[p]) > 0);
        assert(sc.contains(c[p]));
        let m = choose|m: int| 0 <= m < sc.len() && sc[m] == c[p];
        if m < r.len() {
            assert(pos[m] == p);
            assert(pos.contains(p));
        }
        assert(sc.len() == items.len());
        assert(m >= r.len());
        assert(r.len() < items.len());
        if r.len() > 0 {
            let l = r.len() - 1;
            assert(sc[l].0 >= sc[m].0);
            assert(r[l].timestamp == sc[l].0);
        }
    }
}

/// The tag part of a score counts every wanted tag the item carries: it is
/// the number of entries of the wanted list that are among the item's tags.
pub proof fn lemma_tag_hits_count(tags: Seq<Seq<char>>, wanted: Seq<Seq<char>>)
    ensures
        tag_hits(tags, wanted) == wanted.filter(|w: Seq<char>| tags.contains(w)).len(),
    decreases wanted.len(),
{
    reveal(Seq::filter);
    if wanted.len() > 0 {
        lemma_tag_hits_count(tags, wanted.drop_last());
    }
}

/// The keyword part of a score counts every keyword found in the
/// lower-cased content.
pub proof fn lemma_kw_hits_count(lc: Seq<char>, kws: Seq<Seq<char>>)
    ensures
        kw_hits(lc, kws) == kws.filter(|k: Seq<char>| contains_seq(lc, k)).len(),
    decreases kws.len(),
{
    reveal(Seq::filter);
    if kws.len() > 0 {
        lemma_kw_hits_count(lc, kws.drop_last());
    }
}

/// Wanting one more tag raises an item's score by exactly 20 when the item
/// carries it, and leaves it unchanged otherwise; looking for one more
/// keyword raises it by exactly 10 when the lower-cased content holds it.
pub proof fn lemma_score_grows(it: MemoryItemView, kws: Seq<Seq<char>>, wanted: Seq<Seq<char>>, tag: Seq<char>, kw: Seq<char>)
    ensures
        score(it, kws, wanted.push(tag)) == score(it, kws, wanted) + if it.tags.contains(tag) {
            20int
        } else {
            0int
        },
        score(it, kws.push(kw), wanted) == score(it, kws, wanted) + if contains_seq(
            lowercase(it.content),
            kw,
        ) {
            10int
        } else {
            0int
        },
{
    assert(wanted.push(tag).drop_last() =~= wanted);
    assert(kws.push(kw).drop_last() =~= kws);
}

/// After removing an id, no item carries it, and removing it again changes
/// nothing.
pub proof fn lemma_remove_idempotent(items: Seq<MemoryItemView>, id: Seq<char>)
    ensures
        forall|i: int|
            0 <= i < without_id(items, id).len() ==> (#[trigger] without_id(items, id)[i]).id != id,
        without_id(without_id(items, id), id) == without_id(items, id),
    decreases items.len(),
{
    reveal(Seq::filter);
    if items.len() > 0 {
        lemma_remove_idempotent(items.drop_last(), id);
        let t = without_id(items.drop_last(), id);
        if items.last().id != id {
            assert(without_id(items, id) == t.push(items.last()));
            assert(t.push(items.last()).drop_last() =~= t);
            assert(without_id(t.push(items.last()), id) == without_id(t, id).push(items.last()));
        }
    }
}

} // verus!
