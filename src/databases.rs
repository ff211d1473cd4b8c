use vstd::prelude::*;
use crate::communication::{CommData, UserCommunication};
use crate::store::{same_ignoring_ascii_case, matches_ignoring_ascii_case};

verus! {

/// Number of consecutive defaced verdicts after which the owner is notified.
pub const DEFAULT_DEFACEMENT_THRESHOLD: u32 = 5;

/// Default time between two re-indexings of a page, in milliseconds (30 minutes).
pub const DEFAULT_INDEXING_INTERVAL: u64 = 1800000;

/// How a page is compared against its reference DOM.
#[derive(PartialEq, Eq, Structural, Debug, Clone, Copy)]
pub enum TrackedPageType {
    /// The DOM is expected to stay byte-identical.
    Static,
    /// The DOM varies; the field is the tolerated line change, in thousandths
    /// of a percent (2.6 % is 2600).
    Dynamic(u64),
}

/// A URL under monitoring, with its schedule and its breach state.
#[derive(PartialEq, Debug, Clone)]
pub struct TrackedPage {
    pub page_id: u32,
    pub page_url: String,
    pub owning_user_id: u32,
    pub last_time_checked: u128,
    pub last_time_indexed: u128,
    pub index_interval: u128,
    pub tracked_page_type: TrackedPageType,
    pub defacement_count: u32,
    pub defacement_threshold: u32,
    pub notified_of_current_breach: bool,
}

/// A snapshot of a page's rendered DOM.
#[derive(PartialEq, Debug, Clone)]
pub struct StoredDom {
    pub dom_id: u32,
    pub owning_page_id: u32,
    pub dom: String,
}

/// An owner of tracked pages.
#[derive(PartialEq, Debug, Clone)]
pub struct User {
    pub user_id: u32,
    pub user: String,
}

/// Durable storage of tracked pages and their DOM snapshots. Every method
/// may be called from several tasks at once.
pub trait WebsiteDefacementDB {
    /// Starts tracking a URL; URLs are unique regardless of ASCII case.
    fn insert_tracked_page(&self, page: &str, user_id: u32) -> Result<TrackedPage, String>;

    fn list_all_tracked_pages(&self) -> Result<Vec<TrackedPage>, String>;

    /// Claims the pages not checked for `time_since_last_check` ms: their
    /// check time becomes now, and the claimed rows come back.
    fn list_all_pages_not_checked_for(&self, time_since_last_check: u128) -> Result<Vec<TrackedPage>, String>;

    /// Claims the pages not re-indexed for their own interval.
    fn list_all_pages_not_indexed_for(&self) -> Result<Vec<TrackedPage>, String>;

    fn get_information_for_page(&self, page: &str) -> Result<TrackedPage, String>;

    fn get_information_for_tracked_page(&self, page_id: u32) -> Result<TrackedPage, String>;

    /// Commits the page type, its tolerance, the index interval and the
    /// index time.
    fn update_tracking_type_for_page(&self, page: &TrackedPage) -> Result<bool, String>;

    /// Adds one to the breach count and ORs `notified` into the flag, in
    /// one step, and writes both back into `page`.
    fn increment_defacement_count(&self, page: &mut TrackedPage, notified: bool) -> Result<(), String>;

    /// Sets the breach count to 0 and clears the flag, in the store and in
    /// `page`.
    fn reset_defacement_count(&self, page: &mut TrackedPage) -> Result<(), String>;

    fn del_tracked_page(&self, page: TrackedPage) -> Result<bool, String>;

    fn read_doms_for_page(&self, page: &TrackedPage) -> Result<Vec<StoredDom>, String>;

    fn read_latest_dom_for_page(&self, page: &TrackedPage) -> Result<StoredDom, String>;

    fn insert_dom_for_page(&self, page: &TrackedPage, page_dom: &str) -> Result<StoredDom, String>;

    fn update_dom_for_page(&self, page: &TrackedPage, dom: &mut StoredDom, page_dom: &str) -> Result<(), String>;

    fn delete_dom_for_page(&self, page: &TrackedPage, dom: StoredDom) -> Result<bool, String>;
}

/// Durable storage of users and their contacts.
pub trait UserDB {
    fn create_user(&self, user_name: &str) -> Result<User, String>;

    fn get_user_info_for(&self, user_name: &str) -> Result<User, String>;

    fn get_user_info_for_id(&self, user_id: u32) -> Result<User, String>;

    fn delete_user(&self, user: User) -> Result<bool, String>;

    fn insert_contact_for(&self, user: &User, comm: CommData) -> Result<UserCommunication, String>;

    fn list_contacts_for(&self, user: &User) -> Result<Vec<UserCommunication>, String>;

    fn get_contact_for_id(&self, contact_id: u32) -> Result<UserCommunication, String>;

    fn delete_contact(&self, comm: UserCommunication) -> Result<bool, String>;
}

/// The breach state is consistent: the owner can only have been notified
/// once the count reached the threshold.
pub open spec fn breach_consistent(page: TrackedPage) -> bool {
    page.notified_of_current_breach ==> page.defacement_count >= page.defacement_threshold
}

/// Whether one more defaced verdict must notify the owner: the count reaches
/// the threshold and this episode has not been reported yet.
pub open spec fn notify_due(page: TrackedPage) -> bool {
    page.defacement_count + 1 >= page.defacement_threshold && !page.notified_of_current_breach
}

/// The page after one more defaced verdict, recorded with the given flag.
pub open spec fn after_defacement(page: TrackedPage, notified: bool) -> TrackedPage {
    TrackedPage {
        defacement_count: if page.defacement_count < u32::MAX {
            (page.defacement_count + 1) as u32
        } else {
            page.defacement_count
        },
        notified_of_current_breach: page.notified_of_current_breach || notified,
        ..page
    }
}

/// The page after a clean verdict, which ends the episode.
pub open spec fn after_reset(page: TrackedPage) -> TrackedPage {
    TrackedPage { defacement_count: 0, notified_of_current_breach: false, ..page }
}

impl TrackedPage {
    pub fn new(
        page_id: u32,
        page_url: String,
        owning_user_id: u32,
        last_time_checked: u128,
        last_time_indexed: u128,
        index_interval: u128,
        defacement_count: u32,
        defacement_threshold: u32,
        notified_of_current: bool,
        tracked_type: TrackedPageType,
    ) -> (r: Self)
        ensures
            r.page_id == page_id,
            r.page_url == page_url,
            r.owning_user_id == owning_user_id,
            r.last_time_checked == last_time_checked,
            r.last_time_indexed == last_time_indexed,
            r.index_interval == index_interval,
            r.defacement_count == defacement_count,
            r.defacement_threshold == defacement_threshold,
            r.notified_of_current_breach == notified_of_current,
            r.tracked_page_type == tracked_type,
    {
        TrackedPage {
            page_id,
            page_url,
            owning_user_id,
            last_time_checked,
            last_time_indexed,
            index_interval,
            tracked_page_type: tracked_type,
            defacement_count,
            defacement_threshold,
            notified_of_current_breach: notified_of_current,
        }
    }

    /// A field-by-field copy.
    pub fn duplicate(&self) -> (r: Self)
        ensures
            r == *self,
    {
        TrackedPage {
            page_id: self.page_id,
            page_url: self.page_url.clone(),
            owning_user_id: self.owning_user_id,
            last_time_checked: self.last_time_checked,
            last_time_indexed: self.last_time_indexed,
            index_interval: self.index_interval,
            tracked_page_type: self.tracked_page_type,
            defacement_count: self.defacement_count,
            defacement_threshold: self.defacement_threshold,
            notified_of_current_breach: self.notified_of_current_breach,
        }
    }

    /// Whether the next defaced verdict must notify the owner.
    pub fn notify_on_next_defacement(&self) -> (r: bool)
        ensures
            r == notify_due(*self),
    {
        (self.defacement_count as u64) + 1 >= self.defacement_threshold as u64
            && !self.notified_of_current_breach
    }

    /// Records one more defaced verdict. The count goes up by one (it stays
    /// at `u32::MAX` once there) and the notified flag becomes
    /// `notified_of_current_breach || notified`.
    pub fn record_defacement(&mut self, notified: bool)
        ensures
            *final(self) == after_defacement(*old(self), notified),
    {
        if self.defacement_count < u32::MAX {
            self.defacement_count = self.defacement_count + 1;
        }
        self.notified_of_current_breach = self.notified_of_current_breach || notified;
    }

    /// Ends the breach episode: count 0, flag cleared.
    pub fn reset_defacements(&mut self)
        ensures
            *final(self) == after_reset(*old(self)),
    {
        self.defacement_count = 0;
        self.notified_of_current_breach = false;
    }

    pub fn page_id(&self) -> (r: u32)
        ensures
            r == self.page_id,
    {
        self.page_id
    }

    pub fn page_url(&self) -> (r: &str)
        ensures
            r@ == self.page_url@,
    {
        self.page_url.as_str()
    }

    pub fn owning_user_id(&self) -> (r: u32)
        ensures
            r == self.owning_user_id,
    {
        self.owning_user_id
    }

    pub fn last_time_checked(&self) -> (r: u128)
        ensures
            r == self.last_time_checked,
    {
        self.last_time_checked
    }

    pub fn tracked_page_type(&self) -> (r: &TrackedPageType)
        ensures
            *r == self.tracked_page_type,
    {
        &self.tracked_page_type
    }

    pub fn set_tracked_page_type(&mut self, tracked_page_type: TrackedPageType)
        ensures
            *final(self) == (TrackedPage { tracked_page_type, ..*old(self) }),
    {
        self.tracked_page_type = tracked_page_type;
    }

    pub fn last_time_indexed(&self) -> (r: u128)
        ensures
            r == self.last_time_indexed,
    {
        self.last_time_indexed
    }

    pub fn defacement_count(&self) -> (r: u32)
        ensures
            r == self.defacement_count,
    {
        self.defacement_count
    }

    pub fn defacement_threshold(&self) -> (r: u32)
        ensures
            r == self.defacement_threshold,
    {
        self.defacement_threshold
    }

    pub fn notified_of_current_breach(&self) -> (r: bool)
        ensures
            r == self.notified_of_current_breach,
    {
        self.notified_of_current_breach
    }

    pub fn set_defacement_count(&mut self, defacement_count: u32)
        ensures
            *final(self) == (TrackedPage { defacement_count, ..*old(self) }),
    {
        self.defacement_count = defacement_count;
    }

    pub fn set_notified_of_current_breach(&mut self, notified_of_current_breach: bool)
        ensures
            *final(self) == (TrackedPage { notified_of_current_breach, ..*old(self) }),
    {
        self.notified_of_current_breach = notified_of_current_breach;
    }

    pub fn index_interval(&self) -> (r: u128)
        ensures
            r == self.index_interval,
    {
        self.index_interval
    }

    pub fn set_index_interval(&mut self, index_interval: u128)
        ensures
            *final(self) == (TrackedPage { index_interval, ..*old(self) }),
    {
        self.index_interval = index_interval;
    }
}

impl StoredDom {
    /// A field-by-field copy.
    pub fn duplicate(&self) -> (r: Self)
        ensures
            r == *self,
    {
        StoredDom { dom_id: self.dom_id, owning_page_id: self.owning_page_id, dom: self.dom.clone() }
    }

    pub fn new(dom_id: u32, owning_page_id: u32, dom: String) -> (r: Self)
        ensures
            r.dom_id == dom_id,
            r.owning_page_id == owning_page_id,
            r.dom == dom,
    {
        StoredDom { dom_id, owning_page_id, dom }
    }

    pub fn dom_id(&self) -> (r: u32)
        ensures
            r == self.dom_id,
    {
        self.dom_id
    }

    pub fn owning_page_id(&self) -> (r: u32)
        ensures
            r == self.owning_page_id,
    {
        self.owning_page_id
    }

    pub fn dom(&self) -> (r: &str)
        ensures
            r@ == self.dom@,
    {
        self.dom.as_str()
    }

    pub fn set_dom(&mut self, dom: String)
        ensures
            final(self).dom == dom,
            final(self).dom_id == old(self).dom_id,
            final(self).owning_page_id == old(self).owning_page_id,
    {
        self.dom = dom;
    }
}

impl User {
    pub fn user_id(&self) -> (r: u32)
        ensures
            r == self.user_id,
    {
        self.user_id
    }

    pub fn user(&self) -> (r: &str)
        ensures
            r@ == self.user@,
    {
        self.user.as_str()
    }

    pub fn new(user_id: u32, user: String) -> (r: Self)
        ensures
            r.user_id == user_id,
            r.user == user,
    {
        User { user_id, user }
    }
}

/// Rebuilds a page type from its stored name and tolerance: `"Dynamic"`
/// (ASCII case aside) with a tolerance is dynamic, any other name is static;
/// `None` for a dynamic page whose tolerance is missing.
pub fn tracked_page_type_from_columns(name: &str, tolerance: Option<u64>) -> (r: Option<TrackedPageType>)
    ensures
        same_ignoring_ascii_case(name@, "Dynamic"@) ==> r == match tolerance {
            Some(t) => Some(TrackedPageType::Dynamic(t)),
            None => None::<TrackedPageType>,
        },
        !same_ignoring_ascii_case(name@, "Dynamic"@) ==> r == Some(TrackedPageType::Static),
{
    if matches_ignoring_ascii_case(name, "Dynamic") {
        match tolerance {
            Some(t) => Some(TrackedPageType::Dynamic(t)),
            None => None,
        }
    } else {
        Some(TrackedPageType::Static)
    }
}

/// The name under which a page type is stored.
pub open spec fn page_type_name(page_type: TrackedPageType) -> Seq<char> {
    match page_type {
        TrackedPageType::Static => "Static"@,
        TrackedPageType::Dynamic(_) => "Dynamic"@,
    }
}

pub fn tracked_page_type_to_str(page_type: &TrackedPageType) -> (r: &'static str)
    ensures
        r@ == page_type_name(*page_type),
{
    proof {
        reveal_strlit("Static");
        reveal_strlit("Dynamic");
    }
    match page_type {
        TrackedPageType::Static => "Static",
        TrackedPageType::Dynamic(_) => "Dynamic",
    }
}

/// The page after `n` defaced checks in a row, each recorded with the flag
/// that the check computes.
pub open spec fn after_defaced_checks(page: TrackedPage, n: nat) -> TrackedPage
    decreases n,
{
    if n == 0 {
        page
    } else {
        let p = after_defaced_checks(page, (n - 1) as nat);
        after_defacement(p, notify_due(p))
    }
}

/// How many of those `n` checks notified the owner's contacts.
pub open spec fn reports_in_episode(page: TrackedPage, n: nat) -> nat
    decreases n,
{
    if n == 0 {
        0
    } else {
        let p = after_defaced_checks(page, (n - 1) as nat);
        reports_in_episode(page, (n - 1) as nat) + if notify_due(p) {
            1nat
        } else {
            0nat
        }
    }
}

/// Along a breach episode (defaced checks with no clean one between them)
/// the contacts are notified at most once, and not at all when the episode
/// was already reported; once reported, the flag stays set.
pub proof fn lemma_notify_at_most_once(page: TrackedPage, n: nat)
    ensures
        reports_in_episode(page, n) <= 1,
        page.notified_of_current_breach ==> reports_in_episode(page, n) == 0,
        reports_in_episode(page, n) == 1 ==> after_defaced_checks(page, n).notified_of_current_breach,
        page.notified_of_current_breach ==> after_defaced_checks(page, n).notified_of_current_breach,
    decreases n,
{
    if n > 0 {
        lemma_notify_at_most_once(page, (n - 1) as nat);
    }
}

/// Within an episode the breach count never goes down and never returns to
/// 0: one defaced check adds one (it stays at `u32::MAX` once there); only a
/// clean check brings it to 0 and clears the flag.
pub proof fn lemma_count_monotone(page: TrackedPage, notified: bool, n: nat)
    ensures
        after_defacement(page, notified).defacement_count >= page.defacement_count,
        after_defacement(page, notified).defacement_count > 0,
        page.defacement_count < u32::MAX ==> after_defacement(page, notified).defacement_count
            == page.defacement_count + 1,
        after_defaced_checks(page, n).defacement_count >= page.defacement_count,
        n > 0 ==> after_defaced_checks(page, n).defacement_count > 0,
        after_reset(page).defacement_count == 0,
        !after_reset(page).notified_of_current_breach,
    decreases n,
{
    if n > 0 {
        lemma_count_monotone(page, notified, (n - 1) as nat);
    }
}

/// The notified flag implies that the count has reached the threshold: a
/// new page satisfies it, and each check (defaced, with the flag it
/// computes, or clean) keeps it.
pub proof fn lemma_notified_implies_threshold(page: TrackedPage, n: nat)
    requires
        breach_consistent(page),
    ensures
        breach_consistent(after_defacement(page, notify_due(page))),
        breach_consistent(after_reset(page)),
        breach_consistent(after_defaced_checks(page, n)),
        breach_consistent(TrackedPage { defacement_count: 0, notified_of_current_breach: false, ..page }),
    decreases n,
{
    if n > 0 {
        lemma_notified_implies_threshold(page, (n - 1) as nat);
    }
}

} // verus!
