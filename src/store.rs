use vstd::prelude::*;
use vstd::string::{StrSliceExecFns, StringExecFns};
use crate::databases::{
    after_defacement, after_reset, StoredDom, TrackedPage, TrackedPageType,
    DEFAULT_DEFACEMENT_THRESHOLD, DEFAULT_INDEXING_INTERVAL,
};

verus! {

/// Why a store operation did not take place.
#[derive(PartialEq, Eq, Structural, Debug, Clone, Copy)]
pub enum StoreError {
    /// Another page already tracks that URL (compared without ASCII case).
    Duplicate,
    /// No page has that id.
    NotFound,
    /// Every id has been handed out.
    Full,
}

/// A character with ASCII upper case folded to lower case, as a code point.
pub open spec fn folded(c: char) -> u32 {
    if 65 <= c as u32 <= 90 {
        (c as u32 + 32) as u32
    } else {
        c as u32
    }
}

/// Two texts are the same when they match character by character, ASCII case
/// aside.
pub open spec fn same_ignoring_ascii_case(a: Seq<char>, b: Seq<char>) -> bool {
    &&& a.len() == b.len()
    &&& forall|i: int| 0 <= i < a.len() ==> folded(#[trigger] a[i]) == folded(b[i])
}

/// Ids grow strictly along the table, so no two rows share one.
pub open spec fn page_ids_increasing(pages: Seq<TrackedPage>) -> bool {
    forall|i: int, j: int| 0 <= i < j < pages.len() ==> pages[i].page_id < pages[j].page_id
}

pub open spec fn dom_ids_increasing(doms: Seq<StoredDom>) -> bool {
    forall|i: int, j: int| 0 <= i < j < doms.len() ==> doms[i].dom_id < doms[j].dom_id
}

pub open spec fn has_page(pages: Seq<TrackedPage>, page_id: u32) -> bool {
    exists|i: int| 0 <= i < pages.len() && pages[i].page_id == page_id
}

pub open spec fn url_taken(pages: Seq<TrackedPage>, url: Seq<char>) -> bool {
    exists|i: int| 0 <= i < pages.len() && same_ignoring_ascii_case(pages[i].page_url@, url)
}

/// Every stored DOM belongs to a tracked page.
pub open spec fn doms_owned(pages: Seq<TrackedPage>, doms: Seq<StoredDom>) -> bool {
    forall|k: int| 0 <= k < doms.len() ==> has_page(pages, #[trigger] doms[k].owning_page_id)
}

/// The id that the next inserted page gets: one past the last.
pub open spec fn next_page_id(pages: Seq<TrackedPage>) -> int {
    if pages.len() == 0 {
        1
    } else {
        pages.last().page_id + 1
    }
}

pub open spec fn next_dom_id(doms: Seq<StoredDom>) -> int {
    if doms.len() == 0 {
        1
    } else {
        doms.last().dom_id + 1
    }
}

pub open spec fn page_not(page_id: u32) -> spec_fn(TrackedPage) -> bool {
    |p: TrackedPage| p.page_id != page_id
}

pub open spec fn dom_not_of(page_id: u32) -> spec_fn(StoredDom) -> bool {
    |d: StoredDom| d.owning_page_id != page_id
}

pub open spec fn dom_of(page_id: u32) -> spec_fn(StoredDom) -> bool {
    |d: StoredDom| d.owning_page_id == page_id
}

/// Which timestamp a claim looks at.
#[derive(PartialEq, Eq, Structural, Debug, Clone, Copy)]
pub enum ClaimKind {
    /// Pages not checked for longer than the given time.
    Check(u128),
    /// Pages not re-indexed for longer than their own interval.
    Reindex,
}

/// A page is due when its timestamp is older than `now` minus the interval.
pub open spec fn is_due(page: TrackedPage, now: u128, kind: ClaimKind) -> bool {
    match kind {
        ClaimKind::Check(threshold) => page.last_time_checked + threshold < now,
        ClaimKind::Reindex => page.last_time_indexed + page.index_interval < now,
    }
}

/// A claim moves a due page's timestamp to `now`.
pub open spec fn claim_step(page: TrackedPage, now: u128, kind: ClaimKind) -> TrackedPage {
    if is_due(page, now, kind) {
        match kind {
            ClaimKind::Check(_) => TrackedPage { last_time_checked: now, ..page },
            ClaimKind::Reindex => TrackedPage { last_time_indexed: now, ..page },
        }
    } else {
        page
    }
}

/// The rows a claim returns: the due ones, in table order, as updated.
pub open spec fn claimed(pages: Seq<TrackedPage>, now: u128, kind: ClaimKind) -> Seq<TrackedPage>
    decreases pages.len(),
{
    if pages.len() == 0 {
        Seq::empty()
    } else {
        let rest = claimed(pages.drop_last(), now, kind);
        if is_due(pages.last(), now, kind) {
            rest.push(claim_step(pages.last(), now, kind))
        } else {
            rest
        }
    }
}

/// The page that an insertion creates.
pub open spec fn fresh_page(p: TrackedPage, page_id: int, url: Seq<char>, user_id: u32, now: u128) -> bool {
    &&& p.page_id == page_id
    &&& p.page_url@ == url
    &&& p.owning_user_id == user_id
    &&& p.last_time_checked == now
    &&& p.last_time_indexed == 0
    &&& p.index_interval == DEFAULT_INDEXING_INTERVAL
    &&& p.tracked_page_type == TrackedPageType::Static
    &&& p.defacement_count == 0
    &&& p.defacement_threshold == DEFAULT_DEFACEMENT_THRESHOLD
    &&& !p.notified_of_current_breach
}

proof fn lemma_filter_keep_all<A>(s: Seq<A>, pred: spec_fn(A) -> bool)
    requires
        forall|i: int| 0 <= i < s.len() ==> pred(#[trigger] s[i]),
    ensures
        s.filter(pred) == s,
    decreases s.len(),
{
    reveal(Seq::filter);
    if s.len() > 0 {
        lemma_filter_keep_all(s.drop_last(), pred);
        assert(s.drop_last().push(s.last()) =~= s);
    }
}

proof fn lemma_filter_pages(pages: Seq<TrackedPage>, page_id: u32)
    requires
        page_ids_increasing(pages),
    ensures
        page_ids_increasing(pages.filter(page_not(page_id))),
        pages.len() > 0 ==> forall|k: int|
            0 <= k < pages.filter(page_not(page_id)).len() ==> #[trigger] pages.filter(
                page_not(page_id),
            )[k].page_id <= pages.last().page_id,
    decreases pages.len(),
{
    reveal(Seq::filter);
    if pages.len() > 0 {
        lemma_filter_pages(pages.drop_last(), page_id);
    }
}

proof fn lemma_filter_doms(doms: Seq<StoredDom>, page_id: u32)
    requires
        dom_ids_increasing(doms),
    ensures
        dom_ids_increasing(doms.filter(dom_not_of(page_id))),
        doms.len() > 0 ==> forall|k: int|
            0 <= k < doms.filter(dom_not_of(page_id)).len() ==> #[trigger] doms.filter(
                dom_not_of(page_id),
            )[k].dom_id <= doms.last().dom_id,
    decreases doms.len(),
{
    reveal(Seq::filter);
    if doms.len() > 0 {
        lemma_filter_doms(doms.drop_last(), page_id);
    }
}

proof fn lemma_filter_sub<A>(s: Seq<A>, pred: spec_fn(A) -> bool, k: int)
    requires
        0 <= k < s.filter(pred).len(),
    ensures
        s.contains(s.filter(pred)[k]),
    decreases s.len(),
{
    reveal(Seq::filter);
    let fd = s.drop_last().filter(pred);
    if k < fd.len() {
        lemma_filter_sub(s.drop_last(), pred, k);
        let j = choose|j: int| 0 <= j < s.drop_last().len() && s.drop_last()[j] == fd[k];
        assert(s[j] == s.filter(pred)[k]);
    } else {
        assert(s.filter(pred)[k] == s[s.len() - 1]);
    }
}

/// `insert_tracked_page` followed by `del_tracked_page` of the new page gives
/// the store back as it was:
/// the new page takes an id that no row holds, so no DOM belongs to it, and
/// deleting it removes that row alone.
pub proof fn lemma_insert_then_delete(pages: Seq<TrackedPage>, doms: Seq<StoredDom>, p: TrackedPage)
    requires
        page_ids_increasing(pages),
        doms_owned(pages, doms),
        p.page_id == next_page_id(pages),
    ensures
        pages.push(p).filter(page_not(p.page_id)) == pages,
        doms.filter(dom_not_of(p.page_id)) == doms,
{
    assert forall|i: int| 0 <= i < pages.len() implies (page_not(p.page_id))(#[trigger] pages[i]) by {
        assert(pages[i].page_id <= pages.last().page_id);
    }
    lemma_filter_keep_all(pages, page_not(p.page_id));
    reveal(Seq::filter);
    assert(pages.push(p).drop_last() =~= pages);
    assert forall|k: int| 0 <= k < doms.len() implies (dom_not_of(p.page_id))(#[trigger] doms[k]) by {
        assert(has_page(pages, doms[k].owning_page_id));
        let i = choose|i: int| 0 <= i < pages.len() && pages[i].page_id == doms[k].owning_page_id;
        assert(pages[i].page_id <= pages.last().page_id);
    }
    lemma_filter_keep_all(doms, dom_not_of(p.page_id));
}

/// The soft lock: a row that a claim returned carries the claim's `now`, so
/// no claim of the same kind up to `now + interval` finds it due again, and
/// its timestamp never moves back.
pub proof fn lemma_claim_is_exclusive(page: TrackedPage, now: u128, later: u128, kind: ClaimKind)
    requires
        is_due(page, now, kind),
        later <= now + match kind {
            ClaimKind::Check(threshold) => threshold as int,
            ClaimKind::Reindex => page.index_interval as int,
        },
    ensures
        !is_due(claim_step(page, now, kind), later, kind),
        claim_step(page, now, kind).last_time_checked >= page.last_time_checked,
        claim_step(page, now, kind).last_time_indexed >= page.last_time_indexed,
{
}

/// `insert_tracked_page`, any number of `insert_dom_for_page` on the new
/// page, then `del_tracked_page` of it gives the store back as it was.
pub proof fn lemma_insert_doms_then_delete(
    pages: Seq<TrackedPage>,
    doms: Seq<StoredDom>,
    p: TrackedPage,
    added: Seq<StoredDom>,
)
    requires
        page_ids_increasing(pages),
        doms_owned(pages, doms),
        p.page_id == next_page_id(pages),
        forall|k: int| 0 <= k < added.len() ==> (#[trigger] added[k]).owning_page_id == p.page_id,
    ensures
        pages.push(p).filter(page_not(p.page_id)) == pages,
        (doms + added).filter(dom_not_of(p.page_id)) == doms,
{
    lemma_insert_then_delete(pages, doms, p);
    lemma_filter_drop_all(added, dom_not_of(p.page_id));
    Seq::filter_distributes_over_add(doms, added, dom_not_of(p.page_id));
    assert(doms + Seq::<StoredDom>::empty() =~= doms);
}

proof fn lemma_filter_drop_all<A>(s: Seq<A>, pred: spec_fn(A) -> bool)
    requires
        forall|i: int| 0 <= i < s.len() ==> !pred(#[trigger] s[i]),
    ensures
        s.filter(pred) == Seq::<A>::empty(),
    decreases s.len(),
{
    reveal(Seq::filter);
    if s.len() > 0 {
        lemma_filter_drop_all(s.drop_last(), pred);
    }
}

/// Folds one character for comparison.
fn fold_char(c: char) -> (r: u32)
    ensures
        r == folded(c),
{
    let v = c as u32;
    if v >= 65 && v <= 90 {
        v + 32
    } else {
        v
    }
}

/// Whether two texts are the same, ASCII case aside (how URLs are compared).
pub fn matches_ignoring_ascii_case(a: &str, b: &str) -> (r: bool)
    ensures
        r == same_ignoring_ascii_case(a@, b@),
{
    let n = a.unicode_len();
    if n != b.unicode_len() {
        return false;
    }
    let mut i: usize = 0;
    while i < n
        invariant
            n == a@.len(),
            n == b@.len(),
            0 <= i <= n,
            forall|k: int| 0 <= k < i ==> folded(#[trigger] a@[k]) == folded(b@[k]),
        decreases n - i,
    {
        if fold_char(a.get_char(i)) != fold_char(b.get_char(i)) {
            return false;
        }
        i = i + 1;
    }
    true
}

/// Tracked pages and their stored DOMs, held in memory. Rows are kept in
/// order of id.
pub struct MemoryStore {
    pub pages: Vec<TrackedPage>,
    pub doms: Vec<StoredDom>,
}

impl MemoryStore {
    pub open spec fn wf(&self) -> bool {
        &&& page_ids_increasing(self.pages@)
        &&& dom_ids_increasing(self.doms@)
        &&& doms_owned(self.pages@, self.doms@)
    }

    pub fn new() -> (r: Self)
        ensures
            r.wf(),
            r.pages@.len() == 0,
            r.doms@.len() == 0,
    {
        MemoryStore { pages: Vec::new(), doms: Vec::new() }
    }

    fn find_page(&self, page_id: u32) -> (r: Option<usize>)
        requires
            page_ids_increasing(self.pages@),
        ensures
            r is None <==> !has_page(self.pages@, page_id),
            r matches Some(k) ==> k < self.pages@.len() && self.pages@[k as int].page_id == page_id,
    {
        let mut i: usize = 0;
        while i < self.pages.len()
            invariant
                0 <= i <= self.pages@.len(),
                forall|k: int| 0 <= k < i ==> self.pages@[k].page_id != page_id,
            decreases self.pages@.len() - i,
        {
            if self.pages[i].page_id == page_id {
                return Some(i);
            }
            i = i + 1;
        }
        None
    }

    fn find_url(&self, url: &str) -> (r: bool)
        ensures
            r == url_taken(self.pages@, url@),
    {
        let mut i: usize = 0;
        while i < self.pages.len()
            invariant
                0 <= i <= self.pages@.len(),
                forall|k: int| 0 <= k < i ==> !same_ignoring_ascii_case(#[trigger] self.pages@[k].page_url@, url@),
            decreases self.pages@.len() - i,
        {
            if matches_ignoring_ascii_case(self.pages[i].page_url.as_str(), url) {
                return true;
            }
            i = i + 1;
        }
        false
    }

    /// Starts tracking a URL for a user: a static page with no stored DOM,
    /// checked at `now`, never indexed, with the default interval and
    /// threshold. Fails with `Duplicate` when the URL is tracked already
    /// (ASCII case aside) and with `Full` when no id is left.
    pub fn insert_tracked_page(&mut self, url: &str, user_id: u32, now: u128) -> (r: Result<
        TrackedPage,
        StoreError,
    >)
        requires
            old(self).wf(),
        ensures
            final(self).wf(),
            (r == Err::<TrackedPage, StoreError>(StoreError::Duplicate)) == url_taken(old(self).pages@, url@),
            (r == Err::<TrackedPage, StoreError>(StoreError::Full)) == (!url_taken(old(self).pages@, url@)
                && next_page_id(old(self).pages@) > u32::MAX),
            r is Ok <==> (!url_taken(old(self).pages@, url@) && next_page_id(old(self).pages@) <= u32::MAX),
            r is Err ==> *final(self) == *old(self),
            r matches Ok(p) ==> {
                &&& fresh_page(p, next_page_id(old(self).pages@), url@, user_id, now)
                &&& final(self).pages@ == old(self).pages@.push(p)
                &&& final(self).doms@ == old(self).doms@
            },
    {
        if self.find_url(url) {
            return Err(StoreError::Duplicate);
        }
        let n = self.pages.len();
        let page_id: u32 = if n == 0 {
            1
        } else {
            let last = self.pages[n - 1].page_id;
            if last == u32::MAX {
                return Err(StoreError::Full);
            }
            last + 1
        };
        let page = TrackedPage {
            page_id,
            page_url: String::from_str(url),
            owning_user_id: user_id,
            last_time_checked: now,
            last_time_indexed: 0,
            index_interval: DEFAULT_INDEXING_INTERVAL as u128,
            tracked_page_type: TrackedPageType::Static,
            defacement_count: 0,
            defacement_threshold: DEFAULT_DEFACEMENT_THRESHOLD,
            notified_of_current_breach: false,
        };
        let ghost before = self.pages@;
        self.pages.push(page.duplicate());
        proof {
            assert forall|k: int| 0 <= k < self.doms@.len() implies has_page(
                self.pages@,
                #[trigger] self.doms@[k].owning_page_id,
            ) by {
                assert(has_page(before, self.doms@[k].owning_page_id));
                let i = choose|i: int| 0 <= i < before.len() && before[i].page_id == self.doms@[k].owning_page_id;
                assert(self.pages@[i] == before[i]);
            }
        }
        Ok(page)
    }

    /// Stops tracking a page: its row and all its stored DOMs go. `true` when
    /// the page existed.
    pub fn del_tracked_page(&mut self, page: &TrackedPage) -> (r: bool)
        requires
            old(self).wf(),
        ensures
            final(self).wf(),
            r == has_page(old(self).pages@, page.page_id),
            final(self).pages@ == old(self).pages@.filter(page_not(page.page_id)),
            final(self).doms@ == old(self).doms@.filter(dom_not_of(page.page_id)),
    {
        let page_id = page.page_id;
        let existed = self.find_page(page_id).is_some();
        let ghost old_pages = self.pages@;
        let ghost old_doms = self.doms@;
        let mut pages: Vec<TrackedPage> = Vec::new();
        let mut i: usize = 0;
        while i < self.pages.len()
            invariant
                old_pages == self.pages@,
                0 <= i <= old_pages.len(),
                pages@ == old_pages.take(i as int).filter(page_not(page_id)),
            decreases old_pages.len() - i,
        {
            proof {
                reveal(Seq::filter);
                assert(old_pages.take(i + 1).drop_last() =~= old_pages.take(i as int));
            }
            if self.pages[i].page_id != page_id {
                pages.push(self.pages[i].duplicate());
            }
            i = i + 1;
        }
        assert(old_pages.take(i as int) =~= old_pages);
        let mut doms: Vec<StoredDom> = Vec::new();
        let mut j: usize = 0;
        while j < self.doms.len()
            invariant
                old_doms == self.doms@,
                0 <= j <= old_doms.len(),
                doms@ == old_doms.take(j as int).filter(dom_not_of(page_id)),
            decreases old_doms.len() - j,
        {
            proof {
                reveal(Seq::filter);
                assert(old_doms.take(j + 1).drop_last() =~= old_doms.take(j as int));
            }
            if self.doms[j].owning_page_id != page_id {
                doms.push(self.doms[j].duplicate());
            }
            j = j + 1;
        }
        assert(old_doms.take(j as int) =~= old_doms);
        self.pages = pages;
        self.doms = doms;
        proof {
            lemma_filter_pages(old_pages, page_id);
            lemma_filter_doms(old_doms, page_id);
            broadcast use vstd::seq_lib::group_filter_ensures;
            let np = old_pages.filter(page_not(page_id));
            let nd = old_doms.filter(dom_not_of(page_id));
            assert forall|k: int| 0 <= k < nd.len() implies has_page(np, #[trigger] nd[k].owning_page_id) by {
                assert((dom_not_of(page_id))(nd[k]));
                assert(old_doms.contains(nd[k])) by {
                    lemma_filter_sub(old_doms, dom_not_of(page_id), k);
                }
                let m = choose|m: int| 0 <= m < old_doms.len() && old_doms[m] == nd[k];
                assert(has_page(old_pages, old_doms[m].owning_page_id));
                let i = choose|i: int| 0 <= i < old_pages.len() && old_pages[i].page_id == old_doms[m].owning_page_id;
                assert((page_not(page_id))(old_pages[i]));
                assert(np.contains(old_pages[i]));
            }
        }
        existed
    }

    /// Copies of all tracked pages, in order of id.
    pub fn list_all_tracked_pages(&self) -> (r: Vec<TrackedPage>)
        ensures
            r@ == self.pages@,
    {
        let mut r: Vec<TrackedPage> = Vec::new();
        let mut i: usize = 0;
        while i < self.pages.len()
            invariant
                0 <= i <= self.pages@.len(),
                r@ == self.pages@.take(i as int),
            decreases self.pages@.len() - i,
        {
            r.push(self.pages[i].duplicate());
            assert(r@ =~= self.pages@.take(i + 1));
            i = i + 1;
        }
        assert(self.pages@.take(i as int) =~= self.pages@);
        r
    }

    /// The page with an id.
    pub fn get_information_for_tracked_page(&self, page_id: u32) -> (r: Result<TrackedPage, StoreError>)
        requires
            self.wf(),
        ensures
            r is Err <==> !has_page(self.pages@, page_id),
            r is Err ==> r == Err::<TrackedPage, StoreError>(StoreError::NotFound),
            r matches Ok(p) ==> self.pages@.contains(p) && p.page_id == page_id,
    {
        match self.find_page(page_id) {
            Some(k) => Ok(self.pages[k].duplicate()),
            None => Err(StoreError::NotFound),
        }
    }

    /// The page that tracks a URL, ASCII case aside.
    pub fn get_information_for_page(&self, url: &str) -> (r: Result<TrackedPage, StoreError>)
        ensures
            r is Err <==> !url_taken(self.pages@, url@),
            r is Err ==> r == Err::<TrackedPage, StoreError>(StoreError::NotFound),
            r matches Ok(p) ==> exists|k: int|
                0 <= k < self.pages@.len() && self.pages@[k] == p && same_ignoring_ascii_case(
                    p.page_url@,
                    url@,
                ) && forall|j: int|
                    0 <= j < k ==> !same_ignoring_ascii_case(#[trigger] self.pages@[j].page_url@, url@),
    {
        let mut i: usize = 0;
        while i < self.pages.len()
            invariant
                0 <= i <= self.pages@.len(),
                forall|k: int| 0 <= k < i ==> !same_ignoring_ascii_case(#[trigger] self.pages@[k].page_url@, url@),
            decreases self.pages@.len() - i,
        {
            if matches_ignoring_ascii_case(self.pages[i].page_url.as_str(), url) {
                return Ok(self.pages[i].duplicate());
            }
            i = i + 1;
        }
        Err(StoreError::NotFound)
    }

    fn claim_due(&mut self, now: u128, kind: ClaimKind) -> (r: Vec<TrackedPage>)
        requires
            old(self).wf(),
        ensures
            final(self).wf(),
            final(self).pages@ == old(self).pages@.map_values(|p: TrackedPage| claim_step(p, now, kind)),
            final(self).doms@ == old(self).doms@,
            r@ == claimed(old(self).pages@, now, kind),
    {
        let ghost old_pages = self.pages@;
        let mut pages: Vec<TrackedPage> = Vec::new();
        let mut r: Vec<TrackedPage> = Vec::new();
        let mut i: usize = 0;
        while i < self.pages.len()
            invariant
                old_pages == self.pages@,
                0 <= i <= old_pages.len(),
                pages@ == old_pages.take(i as int).map_values(|p: TrackedPage| claim_step(p, now, kind)),
                r@ == claimed(old_pages.take(i as int), now, kind),
            decreases old_pages.len() - i,
        {
            assert(old_pages.take(i + 1).drop_last() =~= old_pages.take(i as int));
            let mut page = self.pages[i].duplicate();
            let due = match kind {
                ClaimKind::Check(threshold) => now >= threshold && page.last_time_checked < now - threshold,
                ClaimKind::Reindex => now >= page.index_interval && page.last_time_indexed < now - page.index_interval,
            };
            if due {
                match kind {
                    ClaimKind::Check(_) => {
                        page.last_time_checked = now;
                    },
                    ClaimKind::Reindex => {
                        page.last_time_indexed = now;
                    },
                }
                r.push(page.duplicate());
            }
            pages.push(page);
            assert(pages@ =~= old_pages.take(i + 1).map_values(|p: TrackedPage| claim_step(p, now, kind)));
            i = i + 1;
        }
        assert(old_pages.take(i as int) =~= old_pages);
        self.pages = pages;
        proof {
            let np = self.pages@;
            assert forall|k: int| 0 <= k < self.doms@.len() implies has_page(
                np,
                #[trigger] self.doms@[k].owning_page_id,
            ) by {
                let j = choose|j: int| 0 <= j < old_pages.len() && old_pages[j].page_id == self.doms@[k].owning_page_id;
                assert(np[j].page_id == old_pages[j].page_id);
            }
            assert forall|a: int, b: int| 0 <= a < b < np.len() implies np[a].page_id < np[b].page_id by {
                assert(np[a].page_id == old_pages[a].page_id);
                assert(np[b].page_id == old_pages[b].page_id);
            }
        }
        r
    }

    /// Claims the pages not checked for longer than `threshold`: their
    /// check time moves to `now`, and the updated rows come back. A second
    /// claim at the same `now` finds none of them due.
    pub fn list_all_pages_not_checked_for(&mut self, now: u128, threshold: u128) -> (r: Vec<TrackedPage>)
        requires
            old(self).wf(),
        ensures
            final(self).wf(),
            final(self).pages@ == old(self).pages@.map_values(
                |p: TrackedPage| claim_step(p, now, ClaimKind::Check(threshold)),
            ),
            final(self).doms@ == old(self).doms@,
            r@ == claimed(old(self).pages@, now, ClaimKind::Check(threshold)),
    {
        self.claim_due(now, ClaimKind::Check(threshold))
    }

    /// Claims the pages not re-indexed for longer than their own interval:
    /// their index time moves to `now`, and the updated rows come back.
    pub fn list_all_pages_not_indexed_for(&mut self, now: u128) -> (r: Vec<TrackedPage>)
        requires
            old(self).wf(),
        ensures
            final(self).wf(),
            final(self).pages@ == old(self).pages@.map_values(
                |p: TrackedPage| claim_step(p, now, ClaimKind::Reindex),
            ),
            final(self).doms@ == old(self).doms@,
            r@ == claimed(old(self).pages@, now, ClaimKind::Reindex),
    {
        self.claim_due(now, ClaimKind::Reindex)
    }

    /// Stores a new row for a page and copies its breach state back into
    /// `page`.
    fn replace_row(&mut self, k: usize, row: TrackedPage, page: &mut TrackedPage)
        requires
            old(self).wf(),
            k < old(self).pages@.len(),
            row.page_id == old(self).pages@[k as int].page_id,
        ensures
            final(self).wf(),
            final(self).pages@ == old(self).pages@.update(k as int, row),
            final(self).doms@ == old(self).doms@,
            *final(page) == (TrackedPage {
                defacement_count: row.defacement_count,
                notified_of_current_breach: row.notified_of_current_breach,
                ..*old(page)
            }),
    {
        let ghost old_pages = self.pages@;
        page.defacement_count = row.defacement_count;
        page.notified_of_current_breach = row.notified_of_current_breach;
        self.pages.set(k, row);
        proof {
            let np = self.pages@;
            assert forall|m: int| 0 <= m < self.doms@.len() implies has_page(
                np,
                #[trigger] self.doms@[m].owning_page_id,
            ) by {
                let j = choose|j: int| 0 <= j < old_pages.len() && old_pages[j].page_id == self.doms@[m].owning_page_id;
                assert(np[j].page_id == old_pages[j].page_id);
            }
            assert forall|a: int, b: int| 0 <= a < b < np.len() implies np[a].page_id < np[b].page_id by {
                assert(np[a].page_id == old_pages[a].page_id);
                assert(np[b].page_id == old_pages[b].page_id);
            }
        }
    }

    /// Records a defaced verdict on a page's row: the count goes up by one
    /// and the notified flag becomes `flag || notified`, in one step; the new
    /// count and flag are written back into `page`. `NotFound`, with nothing
    /// changed, when the page is gone.
    pub fn increment_defacement_count(&mut self, page: &mut TrackedPage, notified: bool) -> (r: Result<
        (),
        StoreError,
    >)
        requires
            old(self).wf(),
        ensures
            final(self).wf(),
            r is Err <==> !has_page(old(self).pages@, old(page).page_id),
            r is Err ==> r == Err::<(), StoreError>(StoreError::NotFound) && *final(self) == *old(self)
                && *final(page) == *old(page),
            r is Ok ==> exists|k: int|
                0 <= k < old(self).pages@.len() && old(self).pages@[k].page_id == old(page).page_id
                    && final(self).pages@ == old(self).pages@.update(
                    k,
                    after_defacement(old(self).pages@[k], notified),
                ) && *final(page) == (TrackedPage {
                    defacement_count: final(self).pages@[k].defacement_count,
                    notified_of_current_breach: final(self).pages@[k].notified_of_current_breach,
                    ..*old(page)
                }),
            final(self).doms@ == old(self).doms@,
    {
        match self.find_page(page.page_id) {
            None => Err(StoreError::NotFound),
            Some(k) => {
                let mut row = self.pages[k].duplicate();
                row.record_defacement(notified);
                self.replace_row(k, row, page);
                Ok(())
            },
        }
    }

    /// Ends a page's breach episode: count 0 and flag cleared on its row and
    /// in `page`. `NotFound`, with nothing changed, when the page is gone.
    pub fn reset_defacement_count(&mut self, page: &mut TrackedPage) -> (r: Result<(), StoreError>)
        requires
            old(self).wf(),
        ensures
            final(self).wf(),
            r is Err <==> !has_page(old(self).pages@, old(page).page_id),
            r is Err ==> r == Err::<(), StoreError>(StoreError::NotFound) && *final(self) == *old(self)
                && *final(page) == *old(page),
            r is Ok ==> *final(page) == after_reset(*old(page)) && exists|k: int|
                0 <= k < old(self).pages@.len() && old(self).pages@[k].page_id == old(page).page_id
                    && final(self).pages@ == old(self).pages@.update(k, after_reset(old(self).pages@[k])),
            final(self).doms@ == old(self).doms@,
    {
        match self.find_page(page.page_id) {
            None => Err(StoreError::NotFound),
            Some(k) => {
                let mut row = self.pages[k].duplicate();
                row.reset_defacements();
                self.replace_row(k, row, page);
                Ok(())
            },
        }
    }

    /// Commits a page's type and index interval, with `now` as its index
    /// time unless the stored one is later (index times never go back). `NotFound`, with nothing changed, when the page is gone.
    pub fn update_tracking_type_for_page(&mut self, page: &TrackedPage, now: u128) -> (r: Result<(), StoreError>)
        requires
            old(self).wf(),
        ensures
            final(self).wf(),
            r is Err <==> !has_page(old(self).pages@, page.page_id),
            r is Err ==> r == Err::<(), StoreError>(StoreError::NotFound) && *final(self) == *old(self),
            r is Ok ==> exists|k: int|
                0 <= k < old(self).pages@.len() && old(self).pages@[k].page_id == page.page_id
                    && final(self).pages@ == old(self).pages@.update(
                    k,
                    TrackedPage {
                        tracked_page_type: page.tracked_page_type,
                        index_interval: page.index_interval,
                        last_time_indexed: if now >= old(self).pages@[k].last_time_indexed {
                            now
                        } else {
                            old(self).pages@[k].last_time_indexed
                        },
                        ..old(self).pages@[k]
                    },
                ),
            final(self).doms@ == old(self).doms@,
    {
        match self.find_page(page.page_id) {
            None => Err(StoreError::NotFound),
            Some(k) => {
                let mut row = self.pages[k].duplicate();
                row.tracked_page_type = page.tracked_page_type;
                row.index_interval = page.index_interval;
                if now >= row.last_time_indexed {
                    row.last_time_indexed = now;
                }
                let mut scratch = row.duplicate();
                self.replace_row(k, row, &mut scratch);
                Ok(())
            },
        }
    }

    /// Stores a new DOM snapshot for a page; it gets the next DOM id and so
    /// becomes the page's reference. `NotFound` when the page is gone, `Full`
    /// when no DOM id is left.
    pub fn insert_dom_for_page(&mut self, page: &TrackedPage, page_dom: &str) -> (r: Result<StoredDom, StoreError>)
        requires
            old(self).wf(),
        ensures
            final(self).wf(),
            r is Ok <==> (has_page(old(self).pages@, page.page_id) && next_dom_id(old(self).doms@) <= u32::MAX),
            (r == Err::<StoredDom, StoreError>(StoreError::NotFound)) == !has_page(old(self).pages@, page.page_id),
            (r == Err::<StoredDom, StoreError>(StoreError::Full)) == (has_page(old(self).pages@, page.page_id)
                && next_dom_id(old(self).doms@) > u32::MAX),
            r is Err ==> *final(self) == *old(self),
            r matches Ok(d) ==> {
                &&& d.dom_id == next_dom_id(old(self).doms@)
                &&& d.owning_page_id == page.page_id
                &&& d.dom@ == page_dom@
                &&& final(self).doms@ == old(self).doms@.push(d)
                &&& final(self).pages@ == old(self).pages@
            },
    {
        let page_id = page.page_id;
        if self.find_page(page_id).is_none() {
            return Err(StoreError::NotFound);
        }
        let n = self.doms.len();
        let dom_id: u32 = if n == 0 {
            1
        } else {
            let last = self.doms[n - 1].dom_id;
            if last == u32::MAX {
                return Err(StoreError::Full);
            }
            last + 1
        };
        let stored = StoredDom { dom_id, owning_page_id: page_id, dom: String::from_str(page_dom) };
        self.doms.push(stored.duplicate());
        Ok(stored)
    }

    /// All stored DOMs of a page, oldest first.
    pub fn read_doms_for_page(&self, page: &TrackedPage) -> (r: Vec<StoredDom>)
        ensures
            r@ == self.doms@.filter(dom_of(page.page_id)),
    {
        let page_id = page.page_id;
        let mut r: Vec<StoredDom> = Vec::new();
        let mut i: usize = 0;
        while i < self.doms.len()
            invariant
                0 <= i <= self.doms@.len(),
                r@ == self.doms@.take(i as int).filter(dom_of(page_id)),
            decreases self.doms@.len() - i,
        {
            proof {
                reveal(Seq::filter);
                assert(self.doms@.take(i + 1).drop_last() =~= self.doms@.take(i as int));
            }
            if self.doms[i].owning_page_id == page_id {
                r.push(self.doms[i].duplicate());
            }
            i = i + 1;
        }
        assert(self.doms@.take(i as int) =~= self.doms@);
        r
    }
}

} // verus!
