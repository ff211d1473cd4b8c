use vstd::prelude::*;
use vstd::utf8::encode_utf8;
use crate::databases::{StoredDom, TrackedPage, TrackedPageType};

verus! {

/// What one comparator concludes about a page.
#[derive(PartialEq, Eq, Structural, Debug, Clone, Copy)]
pub enum CompareResult {
    /// Certainly not defaced.
    NotDefaced,
    /// Inconclusive: the next comparator decides.
    MaybeDefaced,
    /// Certainly defaced.
    Defaced,
}

/// The SHA-1 digest of the UTF-8 bytes of a text.
pub uninterp spec fn sha1_of(text: Seq<char>) -> Seq<u8>;

/// The line edit distance that the `difference` crate reports between two
/// texts split on `'\n'`: lines of the first that are not in the common
/// subsequence its backtrack finds, plus those of the second. That
/// subsequence is not always a longest one.
pub uninterp spec fn line_distance(orig: Seq<char>, edit: Seq<char>) -> int;

/// Relies on `sha1::Sha1` (`new`, `update`, `digest().bytes()`): the 20-byte
/// SHA-1 digest of the text's bytes.
#[verifier::external_body]
fn sha1_digest(text: &str) -> (r: Vec<u8>)
    ensures
        r@ == sha1_of(text@),
        r@.len() == 20,
{
    let mut hasher = sha1::Sha1::new();
    hasher.update(text.as_bytes());
    hasher.digest().bytes().to_vec()
}

/// Relies on `difference::Changeset::new(orig, edit, "\n")`: its `distance`
/// field, lines of both texts minus twice a common subsequence. Identical
/// texts share every line, so their distance is 0; different texts split into
/// different line lists, which no common subsequence covers, so it is
/// positive as long as the line counts fit in an `i32`.
#[verifier::external_body]
fn changeset_distance(orig: &str, edit: &str) -> (r: i32)
    ensures
        r as int == line_distance(orig@, edit@),
        orig@ == edit@ ==> r == 0,
        orig@ != edit@ && orig@.len() + edit@.len() < 0x7fff_0000 ==> r > 0,
{
    difference::Changeset::new(orig, edit, "\n").distance
}

/// Length of a text in bytes, as `str::len` reports it.
pub open spec fn byte_len(text: Seq<char>) -> int {
    encode_utf8(text).len() as usize as int
}

/// Each character takes one to four bytes.
proof fn lemma_encoded_len(text: Seq<char>)
    ensures
        text.len() <= encode_utf8(text).len() <= 4 * text.len(),
    decreases text.len(),
{
    if text.len() > 0 {
        lemma_encoded_len(text.drop_first());
    }
}

/// A text shorter than 2^28 characters has a byte length between its
/// character count and four times that.
pub proof fn lemma_byte_len_bounds(text: Seq<char>)
    requires
        text.len() < 0x1000_0000,
    ensures
        text.len() <= byte_len(text) <= 4 * text.len(),
{
    lemma_encoded_len(text);
}

/// The larger byte length of two texts: the base of a relative change.
pub open spec fn diff_base(a: Seq<char>, b: Seq<char>) -> int {
    if byte_len(a) >= byte_len(b) {
        byte_len(a)
    } else {
        byte_len(b)
    }
}

/// Largest relative change that a line distance held in an `i32` can give.
pub const MAX_MEASURED_DIFF: u64 = 214748364700000;

/// Relative change `100 * distance / base` in thousandths of a percent,
/// rounded up, so that it is 0 exactly when nothing changed and lies within
/// a tolerance exactly when the exact change does; 0 when the distance is not
/// positive or both texts are empty.
pub open spec fn diff_percent(distance: int, base: int) -> int {
    if distance <= 0 || base <= 0 {
        0
    } else {
        (distance * 100000 + base - 1) / base
    }
}

/// The measured change between two DOMs, in thousandths of a percent.
pub open spec fn measured_diff(a: Seq<char>, b: Seq<char>) -> int {
    diff_percent(line_distance(a, b), diff_base(a, b))
}

/// The measured change between two DOMs lies strictly above a tolerance.
pub open spec fn exceeds_tolerance(a: Seq<char>, b: Seq<char>, tolerance: u64) -> bool {
    measured_diff(a, b) > tolerance
}

/// Rounding up loses nothing against a tolerance: the measured change is
/// above `t` exactly when the exact change `100 * distance / base` is, and it
/// is positive exactly when the distance is.
pub proof fn lemma_rounding_exact(distance: int, base: int, t: int)
    requires
        base > 0,
        t >= 0,
    ensures
        diff_percent(distance, base) > t <==> distance * 100000 > t * base,
        diff_percent(distance, base) > 0 <==> distance > 0,
{
    if distance > 0 {
        let x = distance * 100000;
        let q = (x + base - 1) / base;
        vstd::arithmetic::div_mod::lemma_fundamental_div_mod(x + base - 1, base);
        let r = (x + base - 1) % base;
        assert(0 <= r < base) by {
            vstd::arithmetic::div_mod::lemma_mod_bound(x + base - 1, base);
        }
        assert(q > t <==> x > t * base) by (nonlinear_arith)
            requires
                x + base - 1 == base * q + r,
                0 <= r < base,
                base > 0,
        ;
        assert(q > 0) by (nonlinear_arith)
            requires
                x + base - 1 == base * q + r,
                0 <= r < base,
                x >= 100000,
                base > 0,
        ;
    } else {
        assert(distance * 100000 <= 0);
        assert(t * base >= 0) by (nonlinear_arith)
            requires
                t >= 0,
                base > 0,
        ;
    }
}

/// The checksum comparator's verdict, given whether the digests are equal.
pub open spec fn verdict_from_digests(page_type: TrackedPageType, same_digest: bool) -> CompareResult {
    if same_digest {
        CompareResult::NotDefaced
    } else {
        match page_type {
            TrackedPageType::Static => CompareResult::Defaced,
            TrackedPageType::Dynamic(_) => CompareResult::MaybeDefaced,
        }
    }
}

/// The verdict of the checksum comparator.
pub open spec fn checksum_verdict(
    page_type: TrackedPageType,
    a: Seq<char>,
    b: Seq<char>,
) -> CompareResult {
    verdict_from_digests(page_type, sha1_of(a) == sha1_of(b))
}

/// The diff comparator's verdict, given the line distance and the larger
/// byte length: a static page is defaced when the measured change is
/// positive, a dynamic one when it is above the tolerance.
pub open spec fn verdict_from_distance(page_type: TrackedPageType, distance: int, base: int) -> CompareResult {
    match page_type {
        TrackedPageType::Static => if diff_percent(distance, base) > 0 {
            CompareResult::Defaced
        } else {
            CompareResult::NotDefaced
        },
        TrackedPageType::Dynamic(tolerance) => if diff_percent(distance, base) > tolerance {
            CompareResult::Defaced
        } else {
            CompareResult::MaybeDefaced
        },
    }
}

/// The verdict of the diff comparator.
pub open spec fn diff_verdict(page_type: TrackedPageType, a: Seq<char>, b: Seq<char>) -> CompareResult {
    verdict_from_distance(page_type, line_distance(a, b), diff_base(a, b))
}

/// The checksum comparator's decision once the digests are compared.
pub fn checksum_verdict_for(page_type: &TrackedPageType, same_digest: bool) -> (r: CompareResult)
    ensures
        r == verdict_from_digests(*page_type, same_digest),
{
    if same_digest {
        CompareResult::NotDefaced
    } else {
        match page_type {
            TrackedPageType::Static => CompareResult::Defaced,
            TrackedPageType::Dynamic(_) => CompareResult::MaybeDefaced,
        }
    }
}

/// The relative change for a line distance over a base length, in
/// thousandths of a percent, rounded up; 0 when the distance is not positive
/// or the base is empty.
pub fn diff_percent_for(distance: i32, base: usize) -> (r: u64)
    ensures
        r as int == diff_percent(distance as int, base as int),
        r <= MAX_MEASURED_DIFF,
{
    if distance <= 0 || base == 0 {
        0
    } else {
        let scaled: u128 = (distance as u128) * 100000;
        let b: u128 = base as u128;
        let r = (scaled + b - 1) / b;
        proof {
            let x = scaled as int;
            let y = b as int;
            assert((x + y - 1) / y <= x) by (nonlinear_arith)
                requires
                    y >= 1,
                    x >= 1,
            ;
        }
        r as u64
    }
}

/// The diff comparator's decision once the line distance and the larger
/// byte length are known.
pub fn diff_verdict_for(page_type: &TrackedPageType, distance: i32, base: usize) -> (r: CompareResult)
    ensures
        r == verdict_from_distance(*page_type, distance as int, base as int),
{
    let measured = diff_percent_for(distance, base);
    match page_type {
        TrackedPageType::Static => if measured > 0 {
            CompareResult::Defaced
        } else {
            CompareResult::NotDefaced
        },
        TrackedPageType::Dynamic(tolerance) => if measured > *tolerance {
            CompareResult::Defaced
        } else {
            CompareResult::MaybeDefaced
        },
    }
}

/// Whether two DOMs have the same SHA-1 digest.
pub fn comp_doms(initial_dom: &str, current_dom: &str) -> (r: bool)
    ensures
        r == (sha1_of(initial_dom@) == sha1_of(current_dom@)),
{
    let first = sha1_digest(initial_dom);
    let second = sha1_digest(current_dom);
    let mut i: usize = 0;
    while i < 20
        invariant
            first@ == sha1_of(initial_dom@),
            second@ == sha1_of(current_dom@),
            first@.len() == 20,
            second@.len() == 20,
            0 <= i <= 20,
            forall|k: int| 0 <= k < i ==> first@[k] == second@[k],
        decreases 20 - i,
    {
        if first[i] != second[i] {
            assert(first@[i as int] != second@[i as int]);
            assert(first@ != second@);
            return false;
        }
        i = i + 1;
    }
    assert(first@ =~= second@);
    true
}

/// Byte length of a text, as `str::len` counts it.
fn text_byte_len(text: &str) -> (r: usize)
    ensures
        r as int == byte_len(text@),
{
    text.len()
}

/// The larger byte length of two texts.
fn base_len(dom: &str, dom_2: &str) -> (r: usize)
    ensures
        r as int == diff_base(dom@, dom_2@),
{
    let len_1 = text_byte_len(dom);
    let len_2 = text_byte_len(dom_2);
    if len_1 >= len_2 {
        len_1
    } else {
        len_2
    }
}

/// Compares two DOMs line by line and returns the relative change, in
/// thousandths of a percent of the larger one's byte length (rounded up).
pub fn compare_dom_with_diff(dom: &str, dom_2: &str) -> (r: u64)
    ensures
        r as int == measured_diff(dom@, dom_2@),
        r <= MAX_MEASURED_DIFF,
        dom@ == dom_2@ ==> r == 0,
        dom@.len() + dom_2@.len() < 0x1000_0000 ==> (r == 0 <==> dom@ == dom_2@),
{
    let distance = changeset_distance(dom, dom_2);
    let base = base_len(dom, dom_2);
    proof {
        if dom@.len() + dom_2@.len() < 0x1000_0000 && dom@ != dom_2@ {
            lemma_byte_len_bounds(dom@);
            lemma_byte_len_bounds(dom_2@);
            if dom@.len() == 0 {
                assert(dom_2@.len() > 0) by {
                    assert(dom_2@.len() == 0 ==> dom@ =~= dom_2@);
                }
            }
            assert(base > 0);
            lemma_rounding_exact(distance as int, base as int, 0);
        }
    }
    diff_percent_for(distance, base)
}

/// Compares by SHA-1 digest: equal digests clear the page; otherwise a
/// static page is defaced and a dynamic one is undecided.
pub struct ChecksumComparator {}

impl ChecksumComparator {
    pub fn new() -> Self {
        ChecksumComparator {}
    }

    pub fn name(&self) -> (r: &'static str)
        ensures
            r@ == "Checksum"@,
    {
        proof {
            reveal_strlit("Checksum");
        }
        "Checksum"
    }

    pub fn compare_between(&self, page: &TrackedPage, dom_1: &String, dom_2: &String) -> (r:
        CompareResult)
        ensures
            r == checksum_verdict(page.tracked_page_type, dom_1@, dom_2@),
    {
        let same = comp_doms(dom_1.as_str(), dom_2.as_str());
        checksum_verdict_for(&page.tracked_page_type, same)
    }
}

/// Compares by line diff: any change defaces a static page; a dynamic page
/// is defaced once the change exceeds its tolerance, and undecided otherwise.
pub struct DiffComparator {}

impl DiffComparator {
    pub fn new() -> Self {
        DiffComparator {}
    }

    pub fn name(&self) -> (r: &'static str)
        ensures
            r@ == "Diff"@,
    {
        proof {
            reveal_strlit("Diff");
        }
        "Diff"
    }

    pub fn compare_between(&self, page: &TrackedPage, dom_1: &String, dom_2: &String) -> (r:
        CompareResult)
        ensures
            r == diff_verdict(page.tracked_page_type, dom_1@, dom_2@),
            page.tracked_page_type matches TrackedPageType::Dynamic(t) ==> (r == CompareResult::Defaced
                <==> measured_diff(dom_1@, dom_2@) > t) && r != CompareResult::NotDefaced,
            page.tracked_page_type == TrackedPageType::Static ==> (r == CompareResult::Defaced
                <==> measured_diff(dom_1@, dom_2@) > 0) && r != CompareResult::MaybeDefaced,
            dom_1@ == dom_2@ ==> r != CompareResult::Defaced,
            dom_1@ == dom_2@ && page.tracked_page_type == TrackedPageType::Static ==> r
                == CompareResult::NotDefaced,
    {
        let distance = changeset_distance(dom_1.as_str(), dom_2.as_str());
        diff_verdict_for(&page.tracked_page_type, distance, base_len(dom_1.as_str(), dom_2.as_str()))
    }
}

/// One link of a comparator chain.
#[derive(PartialEq, Eq, Structural, Debug, Clone, Copy)]
pub enum ComparatorKind {
    /// The checksum comparator.
    Checksum,
    /// The diff comparator.
    Diff,
}

/// The verdict of one comparator.
pub open spec fn kind_verdict(
    kind: ComparatorKind,
    page_type: TrackedPageType,
    a: Seq<char>,
    b: Seq<char>,
) -> CompareResult {
    match kind {
        ComparatorKind::Checksum => checksum_verdict(page_type, a, b),
        ComparatorKind::Diff => diff_verdict(page_type, a, b),
    }
}

/// The verdict of a chain: the first comparator that decides, decides; when
/// none does, the page is clean.
pub open spec fn chain_verdict(
    chain: Seq<ComparatorKind>,
    page_type: TrackedPageType,
    a: Seq<char>,
    b: Seq<char>,
) -> CompareResult
    decreases chain.len(),
{
    if chain.len() == 0 {
        CompareResult::NotDefaced
    } else {
        match kind_verdict(chain[0], page_type, a, b) {
            CompareResult::MaybeDefaced => chain_verdict(
                chain.subrange(1, chain.len() as int),
                page_type,
                a,
                b,
            ),
            decided => decided,
        }
    }
}

/// The chain used by default: checksum first, then diff.
pub open spec fn default_chain_spec() -> Seq<ComparatorKind> {
    seq![ComparatorKind::Checksum, ComparatorKind::Diff]
}

impl ComparatorKind {
    pub fn name(&self) -> (r: &'static str)
        ensures
            r@ == (match *self {
                ComparatorKind::Checksum => "Checksum"@,
                ComparatorKind::Diff => "Diff"@,
            }),
    {
        match self {
            ComparatorKind::Checksum => ChecksumComparator::new().name(),
            ComparatorKind::Diff => DiffComparator::new().name(),
        }
    }

    pub fn compare_between(&self, page: &TrackedPage, dom_1: &String, dom_2: &String) -> (r:
        CompareResult)
        ensures
            r == kind_verdict(*self, page.tracked_page_type, dom_1@, dom_2@),
    {
        match self {
            ComparatorKind::Checksum => ChecksumComparator::new().compare_between(page, dom_1, dom_2),
            ComparatorKind::Diff => DiffComparator::new().compare_between(page, dom_1, dom_2),
        }
    }
}

/// The default chain: checksum first, then diff.
pub fn default_chain() -> (r: Vec<ComparatorKind>)
    ensures
        r@ == default_chain_spec(),
{
    let r = vec![ComparatorKind::Checksum, ComparatorKind::Diff];
    assert(r@ =~= default_chain_spec());
    r
}

/// Runs a chain of comparators in order and returns the first decisive
/// verdict, or `NotDefaced` when every comparator is undecided. The result is
/// never `MaybeDefaced`.
pub fn run_chain(chain: &Vec<ComparatorKind>, page: &TrackedPage, reference: &String, current: &String) -> (r:
    CompareResult)
    ensures
        r == chain_verdict(chain@, page.tracked_page_type, reference@, current@),
        r != CompareResult::MaybeDefaced,
{
    proof {
        lemma_chain_decides(chain@, page.tracked_page_type, reference@, current@);
    }
    let ghost t = page.tracked_page_type;
    assert(chain@.subrange(0, chain@.len() as int) =~= chain@);
    let mut i: usize = 0;
    while i < chain.len()
        invariant
            0 <= i <= chain@.len(),
            t == page.tracked_page_type,
            chain_verdict(chain@, t, reference@, current@) == chain_verdict(
                chain@.subrange(i as int, chain@.len() as int),
                t,
                reference@,
                current@,
            ),
        decreases chain@.len() - i,
    {
        let ghost rest = chain@.subrange(i as int, chain@.len() as int);
        assert(rest[0] == chain@[i as int]);
        assert(rest.subrange(1, rest.len() as int) =~= chain@.subrange(
            i + 1,
            chain@.len() as int,
        ));
        let verdict = chain[i].compare_between(page, reference, current);
        match verdict {
            CompareResult::MaybeDefaced => {},
            _ => {
                return verdict;
            },
        }
        i = i + 1;
    }
    assert(chain@.subrange(i as int, chain@.len() as int).len() == 0);
    CompareResult::NotDefaced
}

/// Whether the page is as it should be: `true` when the chain clears it
/// against the stored reference, `false` when it finds it defaced.
pub fn verify_page(
    chain: &Vec<ComparatorKind>,
    page: &TrackedPage,
    stored_dom: &StoredDom,
    current_dom: &String,
) -> (r: bool)
    ensures
        r == (chain_verdict(chain@, page.tracked_page_type, stored_dom.dom@, current_dom@)
            == CompareResult::NotDefaced),
{
    run_chain(chain, page, &stored_dom.dom, current_dom) == CompareResult::NotDefaced
}

/// A chain never concludes `MaybeDefaced`: that verdict only passes the
/// decision on to the next comparator.
pub proof fn lemma_chain_decides(
    chain: Seq<ComparatorKind>,
    page_type: TrackedPageType,
    a: Seq<char>,
    b: Seq<char>,
)
    ensures
        chain_verdict(chain, page_type, a, b) != CompareResult::MaybeDefaced,
    decreases chain.len(),
{
    if chain.len() > 0 {
        lemma_chain_decides(chain.subrange(1, chain.len() as int), page_type, a, b);
    }
}

/// Comparing a DOM with itself clears the page, whatever its type: the
/// checksum comparator does so alone, and so does any chain that starts with
/// it, the default chain among them.
pub proof fn lemma_identical_doms_clean(
    chain: Seq<ComparatorKind>,
    page_type: TrackedPageType,
    dom: Seq<char>,
)
    requires
        chain.len() > 0,
        chain[0] == ComparatorKind::Checksum,
    ensures
        checksum_verdict(page_type, dom, dom) == CompareResult::NotDefaced,
        chain_verdict(chain, page_type, dom, dom) == CompareResult::NotDefaced,
        chain_verdict(default_chain_spec(), page_type, dom, dom) == CompareResult::NotDefaced,
{
}

/// For a dynamic page with tolerance `t`: the diff comparator finds the page
/// defaced exactly when the measured change is above `t`; in the default
/// chain a change within `t` always clears the page, and a change above `t`
/// defaces it unless both DOMs have the same digest.
pub proof fn lemma_dynamic_tolerance(t: u64, a: Seq<char>, b: Seq<char>)
    ensures
        !exceeds_tolerance(a, b, t) ==> diff_verdict(TrackedPageType::Dynamic(t), a, b)
            != CompareResult::Defaced,
        exceeds_tolerance(a, b, t) ==> diff_verdict(TrackedPageType::Dynamic(t), a, b)
            == CompareResult::Defaced,
        !exceeds_tolerance(a, b, t) ==> chain_verdict(
            default_chain_spec(),
            TrackedPageType::Dynamic(t),
            a,
            b,
        ) == CompareResult::NotDefaced,
        exceeds_tolerance(a, b, t) && sha1_of(a) != sha1_of(b) ==> chain_verdict(
            default_chain_spec(),
            TrackedPageType::Dynamic(t),
            a,
            b,
        ) == CompareResult::Defaced,
{
    let chain = default_chain_spec();
    let tail = chain.subrange(1, chain.len() as int);
    assert(tail =~= seq![ComparatorKind::Diff]);
    assert(tail.subrange(1, tail.len() as int) =~= Seq::<ComparatorKind>::empty());
    reveal_with_fuel(chain_verdict, 3);
}

} // verus!
