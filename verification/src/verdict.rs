//! Classifier verdicts and the choice among several of them.

use vstd::prelude::*;
use crate::confidence::{
    at_least, is_nan, lemma_boundary, next_below, total_key, Confidence, INFINITY_BITS, SIGN_BIT,
};

verus! {

/// What the classifier says of one item.
#[derive(Clone, Debug)]
pub struct ClassifierResponse {
    pub is_ad: bool,
    pub confidence: Confidence,
    pub reason: String,
}

/// A verdict as a mathematical value.
pub struct VerdictView {
    pub is_ad: bool,
    pub confidence: u32,
    pub reason: Seq<char>,
}

impl View for ClassifierResponse {
    type V = VerdictView;

    open spec fn view(&self) -> VerdictView {
        VerdictView { is_ad: self.is_ad, confidence: self.confidence.bits, reason: self.reason@ }
    }
}

/// The verdicts of a list as mathematical values.
pub open spec fn verdict_views(list: Seq<ClassifierResponse>) -> Seq<VerdictView> {
    list.map_values(|r: ClassifierResponse| r@)
}

/// An item is acted upon iff it is judged an advertisement with a confidence
/// that is numerically at least the threshold.
pub open spec fn actionable(verdict: VerdictView, threshold: u32) -> bool {
    verdict.is_ad && at_least(verdict.confidence, threshold)
}

/// The threshold is inclusive. An advertisement whose confidence is the
/// threshold itself is actionable; one whose confidence is the largest
/// number below the threshold is not. This holds for every threshold that
/// is a number above negative infinity, those from 0 to 1 among them.
pub proof fn lemma_threshold_boundary(reason: Seq<char>, threshold: u32)
    requires
        !is_nan(threshold),
        threshold != SIGN_BIT + INFINITY_BITS,
    ensures
        actionable(VerdictView { is_ad: true, confidence: threshold, reason }, threshold),
        !actionable(
            VerdictView { is_ad: true, confidence: next_below(threshold), reason },
            threshold,
        ),
        !actionable(VerdictView { is_ad: false, confidence: threshold, reason }, threshold),
{
    lemma_boundary(threshold);
}

/// Whether any verdict of the list says advertisement.
pub open spec fn any_ad(list: Seq<VerdictView>) -> bool {
    exists|j: int| 0 <= j < list.len() && #[trigger] list[j].is_ad
}

/// Whether entry `j` takes part in the choice: the advertisements where
/// there are any, else every entry.
pub open spec fn competes(list: Seq<VerdictView>, j: int) -> bool {
    0 <= j < list.len() && (list[j].is_ad || !any_ad(list))
}

/// Entry `i` is the chosen one: it competes, no competitor has a greater
/// confidence in the total order, and of those with the same confidence it
/// is the last.
pub open spec fn is_choice(list: Seq<VerdictView>, i: int) -> bool {
    &&& competes(list, i)
    &&& forall|j: int| #[trigger]
        competes(list, j) ==> {
            ||| total_key(list[j].confidence) < total_key(list[i].confidence)
            ||| (total_key(list[j].confidence) == total_key(list[i].confidence) && j <= i)
        }
}

/// At most one entry is the chosen one.
pub proof fn lemma_choice_unique(list: Seq<VerdictView>, i: int, j: int)
    requires
        is_choice(list, i),
        is_choice(list, j),
    ensures
        i == j,
{
    assert(competes(list, i));
    assert(competes(list, j));
}

/// Where any entry says advertisement, the chosen one does.
pub proof fn lemma_choice_prefers_ads(list: Seq<VerdictView>, i: int)
    requires
        is_choice(list, i),
        any_ad(list),
    ensures
        list[i].is_ad,
{
}

impl ClassifierResponse {
    /// A copy of the verdict.
    pub fn duplicate(&self) -> (copy: ClassifierResponse)
        ensures
            copy@ == self@,
    {
        ClassifierResponse {
            is_ad: self.is_ad,
            confidence: self.confidence,
            reason: self.reason.clone(),
        }
    }

    /// Whether the verdict calls for remediation under `threshold`.
    pub fn is_actionable(&self, threshold: &Confidence) -> (holds: bool)
        ensures
            holds == actionable(self@, threshold.bits),
    {
        self.is_ad && self.confidence.at_least(threshold)
    }
}

/// Whether entry `j` is looked at: every entry, or only those that say
/// advertisement.
spec fn eligible(list: Seq<ClassifierResponse>, j: int, ads_only: bool) -> bool {
    0 <= j < list.len() && (list[j].is_ad || !ads_only)
}

/// Entry `j` does not displace entry `i`: it is less confident in the total
/// order, or as confident and not later.
spec fn yields_to(list: Seq<ClassifierResponse>, j: int, i: int) -> bool {
    ||| total_key(list[j].confidence.bits) < total_key(list[i].confidence.bits)
    ||| (total_key(list[j].confidence.bits) == total_key(list[i].confidence.bits) && j <= i)
}

/// The index of the last entry of greatest confidence among those that say
/// advertisement (`ads_only`) or among all of them.
fn last_greatest(list: &Vec<ClassifierResponse>, ads_only: bool) -> (found: Option<usize>)
    ensures
        found is None ==> forall|j: int| !#[trigger] eligible(list@, j, ads_only),
        found matches Some(i) ==> {
            &&& eligible(list@, i as int, ads_only)
            &&& forall|j: int| #[trigger] eligible(list@, j, ads_only) ==> yields_to(list@, j, i as int)
        },
{
    let mut found: Option<usize> = None;
    let mut k: usize = 0;
    while k < list.len()
        invariant
            k <= list@.len(),
            found is None ==> forall|j: int|
                j < k ==> !#[trigger] eligible(list@, j, ads_only),
            found matches Some(i) ==> {
                &&& i < k
                &&& eligible(list@, i as int, ads_only)
                &&& forall|j: int|
                    j < k && #[trigger] eligible(list@, j, ads_only) ==> yields_to(
                        list@,
                        j,
                        i as int,
                    )
            },
        decreases list@.len() - k,
    {
        if list[k].is_ad || !ads_only {
            match found {
                None => {
                    found = Some(k);
                },
                Some(i) => {
                    if !list[k].confidence.total_before(&list[i].confidence) {
                        found = Some(k);
                    }
                },
            }
        }
        k = k + 1;
    }
    found
}

/// Resolves a list of verdicts to one: the advertisement of greatest
/// confidence where the list holds one, else the entry of greatest
/// confidence; the last of several equally confident ones. Nothing is
/// chosen from an empty list.
pub fn choose_verdict(list: &Vec<ClassifierResponse>) -> (chosen: Option<ClassifierResponse>)
    ensures
        chosen is None <==> list@.len() == 0,
        chosen matches Some(v) ==> exists|i: int|
            is_choice(verdict_views(list@), i) && v@ == #[trigger] list@[i]@,
{
    let ghost views = verdict_views(list@);
    match last_greatest(list, true) {
        Some(i) => {
            proof {
                assert(views[i as int].is_ad);
                assert(any_ad(views));
                assert forall|j: int| #[trigger] competes(views, j) implies {
                    ||| total_key(views[j].confidence) < total_key(views[i as int].confidence)
                    ||| (total_key(views[j].confidence) == total_key(views[i as int].confidence)
                        && j <= i)
                } by {
                    assert(eligible(list@, j, true));
                    assert(yields_to(list@, j, i as int));
                }
                assert(is_choice(views, i as int));
            }
            Some(list[i].duplicate())
        },
        None => {
            proof {
                assert(!any_ad(views)) by {
                    if any_ad(views) {
                        let j = choose|j: int| 0 <= j < views.len() && #[trigger] views[j].is_ad;
                        assert(eligible(list@, j, true));
                    }
                }
            }
            match last_greatest(list, false) {
                Some(i) => {
                    proof {
                        assert forall|j: int| #[trigger] competes(views, j) implies {
                            ||| total_key(views[j].confidence) < total_key(
                                views[i as int].confidence,
                            )
                            ||| (total_key(views[j].confidence) == total_key(
                                views[i as int].confidence,
                            ) && j <= i)
                        } by {
                            assert(eligible(list@, j, false));
                            assert(yields_to(list@, j, i as int));
                        }
                        assert(is_choice(views, i as int));
                    }
                    Some(list[i].duplicate())
                },
                None => {
                    proof {
                        if list@.len() > 0 {
                            assert(eligible(list@, 0, false));
                        }
                    }
                    None
                },
            }
        },
    }
}

} // verus!
