//! The search session: query state with cursor-based pagination, catalog page
//! processing, creator-name resolution, and workshop items.

use vstd::prelude::*;
use vstd::string::StringExecFns;
use crate::text::normalize_spec;
use crate::text::normalize;

verus! {

/// The sentinel cursor that names the first page of a search.
pub open spec fn first_page_cursor() -> Seq<char> {
    "*"@
}

/// Mutable session state: a cursor is only meaningful together with the
/// search text and page size that produced it, so changing the text resets
/// the cursor.
pub struct SearchQuery {
    pub search_text: String,
    pub page_size: usize,
    pub cursor: String,
}

impl SearchQuery {
    /// A fresh query: empty search text, first-page cursor.
    pub fn new(page_size: usize) -> (q: SearchQuery)
        requires
            page_size >= 1,
        ensures
            q.search_text@ == Seq::<char>::empty(),
            q.page_size == page_size,
            q.cursor@ == first_page_cursor(),
    {
        SearchQuery { search_text: String::new(), page_size, cursor: String::from_str("*") }
    }

    /// Store the cursor a page response carried; done unconditionally, even
    /// for a page with no entries, so the next fetch continues from here.
    pub fn advance_cursor(&mut self, next: String)
        ensures
            final(self).cursor == next,
            final(self).search_text == old(self).search_text,
            final(self).page_size == old(self).page_size,
    {
        self.cursor = next;
    }
}

/// Start a new search: set the search text and reset the cursor to the
/// first-page sentinel, atomically, so a fetch never pairs a stale cursor
/// with new search text.
pub fn new_search(q: &mut SearchQuery, text: String)
    ensures
        final(q).search_text == text,
        final(q).cursor@ == first_page_cursor(),
        final(q).page_size == old(q).page_size,
{
    q.search_text = text;
    q.cursor = String::from_str("*");
}

/// One raw catalog entry of a page response, as plain values.
pub struct CatalogEntry {
    pub creator: u64,
    pub id: u64,
    pub title: String,
    pub description: String,
    pub favorited: u16,
    pub subscribed: u16,
}

/// A catalog page response: the next-cursor token, and the entries — absent
/// entirely when the search has no results.
pub struct CatalogResponse {
    pub next_cursor: String,
    pub entries: Option<Vec<CatalogEntry>>,
}

/// Apply one catalog response to the session: store the next cursor
/// unconditionally, and hand back the page's entries; an absent entry list is
/// the terminal empty signal.
pub fn apply_response(q: &mut SearchQuery, resp: CatalogResponse) -> (r: Option<Vec<CatalogEntry>>)
    ensures
        final(q).cursor == resp.next_cursor,
        final(q).search_text == old(q).search_text,
        final(q).page_size == old(q).page_size,
        r == resp.entries,
{
    let CatalogResponse { next_cursor, entries } = resp;
    q.advance_cursor(next_cursor);
    entries
}

/// Identity resolution failed: no display name for this creator ID.
#[derive(Debug)]
pub struct LookupError {
    pub id: u64,
}

/// Whether the association list holds a name for `id`.
pub open spec fn map_has(m: Seq<(u64, String)>, id: u64) -> bool {
    exists|k: int| 0 <= k < m.len() && m[k].0 == id
}

/// Index of the first pair for `id`.
pub open spec fn map_find(m: Seq<(u64, String)>, id: u64, k: int) -> int
    decreases m.len() - k,
{
    if k < 0 || k >= m.len() {
        m.len() as int
    } else if m[k].0 == id {
        k
    } else {
        map_find(m, id, k + 1)
    }
}

/// The name the list holds for `id`.
pub open spec fn map_name(m: Seq<(u64, String)>, id: u64) -> Seq<char> {
    m[map_find(m, id, 0)].1@
}

pub proof fn lemma_map_find(m: Seq<(u64, String)>, id: u64, k: int)
    requires
        0 <= k <= m.len(),
    ensures
        k <= map_find(m, id, k) <= m.len(),
        map_find(m, id, k) < m.len() ==> m[map_find(m, id, k)].0 == id,
        forall|j: int| k <= j < map_find(m, id, k) ==> m[j].0 != id,
        (map_find(m, id, k) < m.len()) == (exists|j: int| k <= j < m.len() && m[j].0 == id),
    decreases m.len() - k,
{
    if k < m.len() && m[k].0 != id {
        lemma_map_find(m, id, k + 1);
    }
}

/// Look `id` up in an association list; the first matching name wins.
fn lookup_name(m: &Vec<(u64, String)>, id: u64) -> (r: Option<String>)
    ensures
        r is Some <==> map_has(m@, id),
        r is Some ==> r->0@ == map_name(m@, id),
{
    proof {
        lemma_map_find(m@, id, 0);
    }
    let mut k: usize = 0;
    while k < m.len()
        invariant
            k <= m@.len(),
            map_find(m@, id, 0) == map_find(m@, id, k as int),
        decreases m@.len() - k,
    {
        if m[k].0 == id {
            return Some(m[k].1.clone());
        }
        k = k + 1;
    }
    proof {
        lemma_map_find(m@, id, 0);
    }
    None
}

/// Resolved creator names for one batch of IDs, built from the identity
/// lookup collaborator's answer to one request.
#[derive(Debug)]
pub struct CreatorCache {
    pub names: Vec<(u64, String)>,
}

impl CreatorCache {
    /// Check the collaborator's answer against the requested IDs: every
    /// requested ID must resolve to a name, else the whole resolution fails
    /// atomically with the first unresolved ID; no partial map is returned.
    pub fn resolve(requested: &Vec<u64>, answer: Vec<(u64, String)>) -> (r: Result<
        CreatorCache,
        LookupError,
    >)
        ensures
            (r is Ok) <==> (forall|k: int|
                0 <= k < requested@.len() ==> map_has(answer@, #[trigger] requested@[k])),
            r is Ok ==> r->Ok_0.names@ == answer@,
            r is Err ==> !map_has(answer@, r->Err_0.id) && (exists|k: int|
                0 <= k < requested@.len() && requested@[k] == r->Err_0.id),
    {
        let mut k: usize = 0;
        while k < requested.len()
            invariant
                k <= requested@.len(),
                forall|j: int| 0 <= j < k ==> map_has(answer@, #[trigger] requested@[j]),
            decreases requested@.len() - k,
        {
            let id = requested[k];
            if lookup_name(&answer, id).is_none() {
                return Err(LookupError { id });
            }
            k = k + 1;
        }
        Ok(CreatorCache { names: answer })
    }

    /// The display name for one creator ID, or the lookup failure.
    pub fn name_of(&self, id: u64) -> (r: Result<String, LookupError>)
        ensures
            (r is Ok) <==> map_has(self.names@, id),
            r is Ok ==> r->Ok_0@ == map_name(self.names@, id),
            r is Err ==> r->Err_0.id == id,
    {
        match lookup_name(&self.names, id) {
            Some(name) => Ok(name),
            None => Err(LookupError { id }),
        }
    }
}

/// Some entry names creator `id`.
pub open spec fn has_creator(entries: Seq<CatalogEntry>, id: u64) -> bool {
    exists|e: int| 0 <= e < entries.len() && entries[e].creator == id
}

/// The ID list holds `id`.
pub open spec fn contains_id(ids: Seq<u64>, id: u64) -> bool {
    exists|k: int| 0 <= k < ids.len() && ids[k] == id
}

/// The distinct creator IDs referenced by a page's entries, first occurrence
/// first.
pub fn distinct_creators(entries: &Vec<CatalogEntry>) -> (ids: Vec<u64>)
    ensures
        forall|a: int, b: int| 0 <= a < b < ids@.len() ==> ids@[a] != ids@[b],
        forall|k: int| 0 <= k < ids@.len() ==> has_creator(entries@, #[trigger] ids@[k]),
        forall|e: int|
            0 <= e < entries@.len() ==> contains_id(ids@, #[trigger] entries@[e].creator),
{
    let mut ids: Vec<u64> = Vec::new();
    let mut e: usize = 0;
    while e < entries.len()
        invariant
            e <= entries@.len(),
            forall|a: int, b: int| 0 <= a < b < ids@.len() ==> ids@[a] != ids@[b],
            forall|k: int| 0 <= k < ids@.len() ==> has_creator(entries@, #[trigger] ids@[k]),
            forall|j: int|
                0 <= j < e ==> contains_id(ids@, #[trigger] entries@[j].creator),
        decreases entries@.len() - e,
    {
        let id = entries[e].creator;
        let mut seen = false;
        let mut k: usize = 0;
        while k < ids.len()
            invariant
                k <= ids@.len(),
                seen == exists|j: int| 0 <= j < k && ids@[j] == id,
            decreases ids@.len() - k,
        {
            if ids[k] == id {
                seen = true;
            }
            k = k + 1;
        }
        let ghost pre = ids@;
        if !seen {
            ids.push(id);
        }
        proof {
            assert(contains_id(ids@, entries@[e as int].creator)) by {
                if seen {
                    let j = choose|j: int| 0 <= j < pre.len() && pre[j] == id;
                    assert(0 <= j < ids@.len() && ids@[j] == id);
                } else {
                    assert(ids@[pre.len() as int] == id);
                }
            }
            assert(has_creator(entries@, id)) by {
                assert(entries@[e as int].creator == id);
            }
            assert forall|j: int|
                0 <= j < e + 1 implies contains_id(ids@, #[trigger] entries@[j].creator) by {
                if j < e {
                    let k2 = choose|k2: int|
                        0 <= k2 < pre.len() && pre[k2] == entries@[j].creator;
                    assert(0 <= k2 < ids@.len() && ids@[k2] == entries@[j].creator);
                }
            }
        }
        e = e + 1;
    }
    ids
}

/// One search result, ready for presentation: creator resolved, description
/// normalized.
pub struct WorkshopItem {
    pub id: u64,
    pub title: String,
    pub creator: String,
    pub description: String,
    pub favorited: u16,
    pub subscribed: u16,
    pub installed: bool,
}

/// `it` is the presentation of catalog entry `e` under the resolved names
/// `names` and the local-install flag `inst`.
pub open spec fn item_matches(
    it: WorkshopItem,
    e: CatalogEntry,
    names: Seq<(u64, String)>,
    inst: bool,
) -> bool {
    &&& it.id == e.id
    &&& it.title@ == e.title@
    &&& it.creator@ == map_name(names, e.creator)
    &&& it.description@ == normalize_spec(e.description@)
    &&& it.favorited == e.favorited
    &&& it.subscribed == e.subscribed
    &&& it.installed == inst
}

impl WorkshopItem {
    /// Build one item from a catalog entry, the resolved creator names, and
    /// the caller's local-install check; fails when the entry's creator has
    /// no resolved name.
    pub fn new(entry: &CatalogEntry, creators: &CreatorCache, installed: bool) -> (r: Result<
        WorkshopItem,
        LookupError,
    >)
        ensures
            (r is Ok) <==> map_has(creators.names@, entry.creator),
            r is Ok ==> item_matches(r->Ok_0, *entry, creators.names@, installed),
            r is Err ==> r->Err_0.id == entry.creator,
    {
        let creator = match creators.name_of(entry.creator) {
            Ok(name) => name,
            Err(e) => {
                return Err(e);
            },
        };
        Ok(
            WorkshopItem {
                id: entry.id,
                title: entry.title.clone(),
                creator,
                description: normalize(entry.description.as_str()),
                favorited: entry.favorited,
                subscribed: entry.subscribed,
                installed,
            },
        )
    }
}

/// Build the page's items, in response order, from its entries, the resolved
/// creator names, and the per-entry local-install flags; fails atomically on
/// the first entry whose creator has no resolved name.
pub fn build_items(
    entries: &Vec<CatalogEntry>,
    creators: &CreatorCache,
    installed: &Vec<bool>,
) -> (r: Result<Vec<WorkshopItem>, LookupError>)
    requires
        installed@.len() == entries@.len(),
    ensures
        (r is Ok) <==> (forall|k: int|
            0 <= k < entries@.len() ==> map_has(creators.names@, #[trigger] entries@[k].creator)),
        r is Ok ==> r->Ok_0@.len() == entries@.len() && (forall|k: int|
            0 <= k < entries@.len() ==> item_matches(
                #[trigger] r->Ok_0@[k],
                entries@[k],
                creators.names@,
                installed@[k],
            )),
        r is Err ==> !map_has(creators.names@, r->Err_0.id) && (exists|k: int|
            0 <= k < entries@.len() && entries@[k].creator == r->Err_0.id),
{
    let mut items: Vec<WorkshopItem> = Vec::new();
    let mut k: usize = 0;
    while k < entries.len()
        invariant
            k <= entries@.len(),
            installed@.len() == entries@.len(),
            items@.len() == k,
            forall|j: int|
                0 <= j < k ==> map_has(creators.names@, #[trigger] entries@[j].creator),
            forall|j: int|
                0 <= j < k ==> item_matches(
                    #[trigger] items@[j],
                    entries@[j],
                    creators.names@,
                    installed@[j],
                ),
        decreases entries@.len() - k,
    {
        match WorkshopItem::new(&entries[k], creators, installed[k]) {
            Ok(item) => {
                items.push(item);
            },
            Err(e) => {
                return Err(e);
            },
        }
        k = k + 1;
    }
    Ok(items)
}

} // verus!
