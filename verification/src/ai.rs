//! The AI reviews of the listed pull requests: which are running, which can be
//! started, and what is kept of them.
use vstd::prelude::*;

use crate::lists::goes_up;
use crate::model::{pr_models, PullRequestModel, PullRequestSummary, ReviewStatus};
use crate::records::{
    launched_model, AiSessionRecord, LaunchedModel, LaunchedRecord, SessionModel,
};
use crate::text::{cat, cat3, first_chars, occurs, texts};
use crate::textmap::{lists, TextMap, TextSet};
use crate::view::{date10, excluded, is_excluded};

verus! {

/// Lifecycle of the AI review for one PR (absent = not started).
pub enum AiReview {
    /// A launch or resume request is running in the background.
    Pending,
    /// An interactive run as a herdr tab; holds the identity used to focus this
    /// PR's tab. Persisted and restored across restarts while the pane is alive.
    Launched(LaunchedRecord),
    /// The herdr tab is gone (e.g. herdr restarted after a reboot), but the
    /// conversation can be reopened in a new tab.
    Resumable(LaunchedRecord),
    /// A finished headless run.
    Done(AiSessionRecord),
    /// The launch failed, for the reason given.
    Failed(String),
}

/// What is known of the AI review for one PR.
#[verifier::ext_equal]
pub enum AiModel {
    Pending,
    Launched(LaunchedModel),
    Resumable(LaunchedModel),
    Done(SessionModel),
    Failed(Seq<char>),
}

impl View for AiReview {
    type V = AiModel;

    open spec fn view(&self) -> AiModel {
        match self {
            AiReview::Pending => AiModel::Pending,
            AiReview::Launched(record) => AiModel::Launched(record@),
            AiReview::Resumable(record) => AiModel::Resumable(record@),
            AiReview::Done(record) => AiModel::Done(record@),
            AiReview::Failed(reason) => AiModel::Failed(reason@),
        }
    }
}

/// Outcome of a background launch or resume.
pub enum AiActionOutcome {
    Launched(LaunchedRecord),
    Failed(String),
}

/// What a background launch or resume came to.
#[verifier::ext_equal]
pub enum OutcomeModel {
    Launched(LaunchedModel),
    Failed(Seq<char>),
}

impl View for AiActionOutcome {
    type V = OutcomeModel;

    open spec fn view(&self) -> OutcomeModel {
        match self {
            AiActionOutcome::Launched(record) => OutcomeModel::Launched(record@),
            AiActionOutcome::Failed(reason) => OutcomeModel::Failed(reason@),
        }
    }
}

/// A launched review found at the start, and whether its tab is alive.
pub struct Restored {
    pub record: LaunchedRecord,
    pub is_live: bool,
}

/// What is known of a launched review found at the start.
#[verifier::ext_equal]
pub struct RestoredModel {
    pub record: LaunchedModel,
    pub is_live: bool,
}

impl View for Restored {
    type V = RestoredModel;

    open spec fn view(&self) -> RestoredModel {
        RestoredModel { record: self.record@, is_live: self.is_live }
    }
}

/// Launched reviews that are all alive.
pub open spec fn all_alive(kept: Map<Seq<char>, LaunchedModel>) -> Map<Seq<char>, RestoredModel> {
    Map::new(
        |url: Seq<char>| kept.contains_key(url),
        |url: Seq<char>| RestoredModel { record: kept[url], is_live: true },
    )
}

/// Launched reviews that are all alive.
pub fn as_alive(kept: &TextMap<LaunchedRecord>) -> (r: TextMap<Restored>)
    ensures
        r@ == all_alive(kept@),
{
    let n: usize = kept.len();
    let ghost keys = kept.keys();
    let mut out: TextMap<Restored> = TextMap::new();
    for i in 0..n
        invariant
            n == kept.keys().len(),
            keys == kept.keys(),
            forall|k: Seq<char>| #[trigger]
                out@.contains_key(k) <==> keys.take(i as int).contains(k),
            forall|k: Seq<char>| #[trigger]
                out@.contains_key(k) ==> out@[k] == (RestoredModel {
                    record: kept@[k],
                    is_live: true,
                }),
    {
        proof {
            lemma_taken(keys, i as int);
        }
        out.insert(
            kept.key_at(i).clone(),
            Restored { record: kept.value_at(i).copy(), is_live: true },
        );
    }
    proof {
        assert(keys.take(n as int) =~= keys);
        assert forall|k: Seq<char>| #[trigger] out@.contains_key(k) <==> kept@.contains_key(k) by {
            assert(keys.contains(k) <==> kept@.dom().contains(k));
        }
        assert(out@ =~= all_alive(kept@));
    }
    out
}

proof fn lemma_taken(keys: Seq<Seq<char>>, i: int)
    requires
        0 <= i < keys.len(),
    ensures
        forall|k: Seq<char>| #[trigger]
            keys.take(i + 1).contains(k) <==> keys.take(i).contains(k) || k == keys[i],
{
    let less = keys.take(i);
    let now = keys.take(i + 1);
    assert forall|k: Seq<char>| #[trigger] now.contains(k) <==> less.contains(k) || k
        == keys[i] by {
        if now.contains(k) {
            let j = choose|j: int| 0 <= j < now.len() && now[j] == k;
            if j < i {
                assert(less[j] == k);
            }
        }
        if less.contains(k) {
            let j = choose|j: int| 0 <= j < less.len() && less[j] == k;
            assert(now[j] == k);
        }
        if k == keys[i] {
            assert(now[i] == k);
        }
    }
}

/// The AI reviews at the start: live (or resumable) herdr runs win over older
/// headless records for the same PR.
pub open spec fn restored(
    sessions: Map<Seq<char>, SessionModel>,
    launched: Map<Seq<char>, RestoredModel>,
) -> Map<Seq<char>, AiModel> {
    Map::new(
        |url: Seq<char>| sessions.contains_key(url) || launched.contains_key(url),
        |url: Seq<char>|
            if launched.contains_key(url) {
                if launched[url].is_live {
                    AiModel::Launched(launched[url].record)
                } else {
                    AiModel::Resumable(launched[url].record)
                }
            } else {
                AiModel::Done(sessions[url])
            },
    )
}

/// The AI reviews at the start, from what is kept on disk.
pub fn restore(sessions: &TextMap<AiSessionRecord>, launched: &TextMap<Restored>) -> (r: TextMap<
    AiReview,
>)
    ensures
        r@ == restored(sessions@, launched@),
{
    let mut out: TextMap<AiReview> = TextMap::new();
    let n: usize = sessions.len();
    let ghost names = sessions.keys();
    for i in 0..n
        invariant
            n == sessions.keys().len(),
            names == sessions.keys(),
            forall|k: Seq<char>| #[trigger]
                out@.contains_key(k) <==> names.take(i as int).contains(k),
            forall|k: Seq<char>| #[trigger]
                out@.contains_key(k) ==> out@[k] == AiModel::Done(sessions@[k]),
    {
        proof {
            lemma_taken(names, i as int);
        }
        out.insert(sessions.key_at(i).clone(), AiReview::Done(sessions.value_at(i).copy()));
    }
    let ghost done = out@;
    proof {
        assert(names.take(n as int) =~= names);
        assert forall|k: Seq<char>| #[trigger]
            done.contains_key(k) <==> sessions@.contains_key(k) by {
            assert(names.contains(k) <==> sessions@.dom().contains(k));
        }
    }
    let m: usize = launched.len();
    let ghost keys = launched.keys();
    for i in 0..m
        invariant
            m == launched.keys().len(),
            keys == launched.keys(),
            lists(keys, launched@.dom()),
            forall|k: Seq<char>| #[trigger]
                out@.contains_key(k) <==> done.contains_key(k) || keys.take(i as int).contains(k),
            forall|k: Seq<char>| #[trigger]
                out@.contains_key(k) ==> out@[k] == (if keys.take(i as int).contains(k) {
                    if launched@[k].is_live {
                        AiModel::Launched(launched@[k].record)
                    } else {
                        AiModel::Resumable(launched@[k].record)
                    }
                } else {
                    done[k]
                }),
    {
        proof {
            lemma_taken(keys, i as int);
        }
        let entry = launched.value_at(i);
        let state = if entry.is_live {
            AiReview::Launched(entry.record.copy())
        } else {
            AiReview::Resumable(entry.record.copy())
        };
        out.insert(launched.key_at(i).clone(), state);
    }
    proof {
        assert(keys.take(m as int) =~= keys);
        assert forall|k: Seq<char>| #[trigger] keys.contains(k) <==> launched@.contains_key(k) by {
            assert(keys.contains(k) <==> launched@.dom().contains(k));
        }
        assert(out@ =~= restored(sessions@, launched@));
    }
    out
}

/// The state that an outcome puts a review in.
pub open spec fn after_outcome(outcome: OutcomeModel) -> AiModel {
    match outcome {
        OutcomeModel::Launched(record) => AiModel::Launched(record),
        OutcomeModel::Failed(reason) => AiModel::Failed(reason),
    }
}

/// Puts the outcome of a launch in place, and says whether the launched reviews
/// have to be saved. Only a successful outcome has them saved: a failure has nothing
/// worth persisting and leaves the file untouched.
pub fn finish_action(reviews: &mut TextMap<AiReview>, url: String, outcome: AiActionOutcome) -> (
    save: bool)
    ensures
        final(reviews)@ == old(reviews)@.insert(url@, after_outcome(outcome@)),
        save == (outcome@ is Launched),
{
    match outcome {
        AiActionOutcome::Launched(record) => {
            reviews.insert(url, AiReview::Launched(record));
            true
        },
        AiActionOutcome::Failed(reason) => {
            reviews.insert(url, AiReview::Failed(reason));
            false
        },
    }
}

/// The outcome of the launch for one PR.
pub struct Finished {
    pub url: String,
    pub outcome: AiActionOutcome,
}

/// What the launch for one PR came to.
#[verifier::ext_equal]
pub struct FinishedModel {
    pub url: Seq<char>,
    pub outcome: OutcomeModel,
}

impl View for Finished {
    type V = FinishedModel;

    open spec fn view(&self) -> FinishedModel {
        FinishedModel { url: self.url@, outcome: self.outcome@ }
    }
}

/// The outcomes of a list.
pub open spec fn finished_models(list: Seq<Finished>) -> Seq<FinishedModel> {
    list.map_values(|f: Finished| f@)
}

/// The reviews with outcomes put in place, one after the other.
pub open spec fn with_outcomes(
    reviews: Map<Seq<char>, AiModel>,
    list: Seq<FinishedModel>,
) -> Map<Seq<char>, AiModel>
    decreases list.len(),
{
    if list.len() == 0 {
        reviews
    } else {
        with_outcomes(reviews, list.drop_last()).insert(
            list.last().url,
            after_outcome(list.last().outcome),
        )
    }
}

/// Whether one of the outcomes is a launch.
pub open spec fn any_launched(list: Seq<FinishedModel>) -> bool {
    exists|i: int| 0 <= i < list.len() && (#[trigger] list[i]).outcome is Launched
}

/// Puts the outcomes that have come in in place, and says whether the launched
/// reviews have to be saved: where one of them is a launch.
pub fn finish_actions(reviews: &mut TextMap<AiReview>, list: Vec<Finished>) -> (save: bool)
    ensures
        final(reviews)@ == with_outcomes(old(reviews)@, finished_models(list@)),
        save == any_launched(finished_models(list@)),
{
    let ghost start = reviews@;
    let ghost all = finished_models(list@);
    let ghost count = list@.len();
    let mut rest = list;
    let mut save: bool = false;
    assert(rest@ =~= list@.skip(0));
    let ghost mut i: int = 0;
    while rest.len() > 0
        invariant
            all == finished_models(list@),
            count == list@.len(),
            0 <= i <= count,
            rest@ == list@.skip(i),
            reviews@ == with_outcomes(start, all.take(i)),
            save == any_launched(all.take(i)),
        decreases count - i,
    {
        let next = rest.remove(0);
        proof {
            let less = all.take(i);
            let now = all.take(i + 1);
            assert(next == list@[i]);
            assert(rest@ =~= list@.skip(i + 1));
            assert(now.drop_last() =~= less);
            assert(now.last() == next@);
            if any_launched(now) {
                let k = choose|k: int| 0 <= k < now.len() && (#[trigger] now[k]).outcome is Launched;
                if k < i {
                    assert(less[k].outcome is Launched);
                }
            }
            if any_launched(less) {
                let k = choose|k: int|
                    0 <= k < less.len() && (#[trigger] less[k]).outcome is Launched;
                assert(now[k].outcome is Launched);
            }
            if next@.outcome is Launched {
                assert(now[i].outcome is Launched);
            }
        }
        let launched: bool = finish_action(reviews, next.url, next.outcome);
        save = save || launched;
        proof {
            i = i + 1;
        }
    }
    assert(all.take(count as int) =~= all);
    save
}

/// The reviews that are launched or resumable.
pub open spec fn launched_of(reviews: Map<Seq<char>, AiModel>) -> Map<Seq<char>, LaunchedModel> {
    Map::new(
        |url: Seq<char>|
            reviews.contains_key(url) && (reviews[url] is Launched || reviews[url] is Resumable),
        |url: Seq<char>|
            match reviews[url] {
                AiModel::Launched(record) => record,
                AiModel::Resumable(record) => record,
                _ => arbitrary(),
            },
    )
}

/// Whether the review at a URL is in flight or has failed, so that an earlier record
/// of it still counts.
pub open spec fn unsettled(reviews: Map<Seq<char>, AiModel>, url: Seq<char>) -> bool {
    reviews.contains_key(url) && (reviews[url] is Pending || reviews[url] is Failed)
}

/// The launched reviews to keep on disk, given those that are there: the launched
/// and resumable ones, and what the disk holds of those in flight or failed.
pub open spec fn kept_on_disk(
    reviews: Map<Seq<char>, AiModel>,
    on_disk: Map<Seq<char>, LaunchedModel>,
) -> Map<Seq<char>, LaunchedModel> {
    Map::new(
        |url: Seq<char>|
            launched_of(reviews).contains_key(url) || (unsettled(reviews, url)
                && on_disk.contains_key(url)),
        |url: Seq<char>|
            if launched_of(reviews).contains_key(url) {
                launched_of(reviews)[url]
            } else {
                on_disk[url]
            },
    )
}

/// The (herdr) reviews to keep on disk, given those that are there: those currently
/// launched or resumable, and the prior record of each PR whose launch is in flight
/// or has failed, so that saving another PR's launch does not wipe it out.
pub fn save_launched(reviews: &TextMap<AiReview>, on_disk: &TextMap<LaunchedRecord>) -> (r: TextMap<
    LaunchedRecord,
>)
    ensures
        r@ == kept_on_disk(reviews@, on_disk@),
{
    let n: usize = reviews.len();
    let ghost keys = reviews.keys();
    let ghost want = kept_on_disk(reviews@, on_disk@);
    let mut out: TextMap<LaunchedRecord> = TextMap::new();
    for i in 0..n
        invariant
            n == reviews.keys().len(),
            keys == reviews.keys(),
            lists(keys, reviews@.dom()),
            want == kept_on_disk(reviews@, on_disk@),
            forall|k: Seq<char>| #[trigger]
                out@.contains_key(k) <==> keys.take(i as int).contains(k) && want.contains_key(k),
            forall|k: Seq<char>| #[trigger] out@.contains_key(k) ==> out@[k] == want[k],
    {
        proof {
            lemma_taken(keys, i as int);
            assert(keys.contains(keys[i as int]));
            assert(reviews@.dom().contains(keys[i as int]));
        }
        let url = reviews.key_at(i);
        match reviews.value_at(i) {
            AiReview::Launched(record) => out.insert(url.clone(), record.copy()),
            AiReview::Resumable(record) => out.insert(url.clone(), record.copy()),
            AiReview::Done(_) => {},
            AiReview::Pending | AiReview::Failed(_) => {
                if let Some(record) = on_disk.get(url.as_str()) {
                    out.insert(url.clone(), record.copy());
                }
            },
        }
    }
    proof {
        assert(keys.take(n as int) =~= keys);
        assert forall|k: Seq<char>| #[trigger] out@.contains_key(k) <==> want.contains_key(k) by {
            if want.contains_key(k) {
                assert(reviews@.dom().contains(k));
                assert(keys.contains(k));
            }
        }
        assert(out@ =~= want);
    }
    out
}

/// Whether the PR at a URL has a live review tab.
pub open spec fn launched_at(reviews: Map<Seq<char>, AiModel>, url: Seq<char>) -> bool {
    reviews.contains_key(url) && reviews[url] is Launched
}

/// True while the PR has a live review tab (a duplicate run makes no sense).
pub fn is_launched(reviews: &TextMap<AiReview>, url: &str) -> (r: bool)
    ensures
        r == launched_at(reviews@, url@),
{
    match reviews.get(url) {
        Some(AiReview::Launched(_)) => true,
        _ => false,
    }
}

/// The prior review to continue when the PR is reviewed again.
pub open spec fn prior_review(
    reviews: Map<Seq<char>, AiModel>,
    pr: PullRequestModel,
) -> Option<LaunchedModel> {
    if pr.status() == ReviewStatus::RequestedUntouched && reviews.contains_key(pr.url) {
        match reviews[pr.url] {
            AiModel::Launched(record) => Some(record),
            AiModel::Resumable(record) => Some(record),
            _ => None,
        }
    } else {
        None
    }
}

/// The prior review to continue when re-reviewing this PR: only when a review is
/// asked for that nobody has given, or asked for again, and an earlier AI review
/// (launched or resumable) is there to go on from. Whether its tab is still alive
/// does not matter.
pub fn re_review_target(reviews: &TextMap<AiReview>, pr: &PullRequestSummary) -> (r: Option<
    LaunchedRecord,
>)
    ensures
        launched_model(r) == prior_review(reviews@, pr@),
{
    match pr.review_status() {
        ReviewStatus::RequestedUntouched => match reviews.get(pr.url.as_str()) {
            Some(AiReview::Launched(record)) => Some(record.copy()),
            Some(AiReview::Resumable(record)) => Some(record.copy()),
            _ => None,
        },
        _ => None,
    }
}

/// Whether a PR cannot be selected for a new AI review.
pub open spec fn blocked(reviews: Map<Seq<char>, AiModel>, pr: PullRequestModel) -> bool {
    (reviews.contains_key(pr.url) && reviews[pr.url] is Pending) || (launched_at(reviews, pr.url)
        && prior_review(reviews, pr) is None)
}

/// True when selecting this PR for a new AI review should be disallowed: a launch
/// is in flight, or a tab is already running AND it isn't a fresh re-request
/// (re-requests always get to re-review, even while the old tab is still open).
pub fn blocks_selection(reviews: &TextMap<AiReview>, pr: &PullRequestSummary) -> (r: bool)
    ensures
        r == blocked(reviews@, pr@),
{
    if let Some(AiReview::Pending) = reviews.get(pr.url.as_str()) {
        return true;
    }
    is_launched(reviews, pr.url.as_str()) && re_review_target(reviews, pr).is_none()
}

/// Whether a PR waits for the viewer's review, is not hidden, and can be selected.
pub open spec fn actionable(
    pr: PullRequestModel,
    excludes: Seq<Seq<char>>,
    reviews: Map<Seq<char>, AiModel>,
) -> bool {
    &&& !excluded(pr.url, excludes)
    &&& pr.status() == ReviewStatus::RequestedUntouched || pr.status()
        == ReviewStatus::RequestedOthersReviewed
    &&& !blocked(reviews, pr)
}

/// The selection with every actionable PR in it.
pub open spec fn with_actionable(
    selected: Set<Seq<char>>,
    prs: Seq<PullRequestModel>,
    excludes: Seq<Seq<char>>,
    reviews: Map<Seq<char>, AiModel>,
) -> Set<Seq<char>>
    decreases prs.len(),
{
    if prs.len() == 0 {
        selected
    } else {
        let rest = with_actionable(selected, prs.drop_last(), excludes, reviews);
        if actionable(prs.last(), excludes, reviews) {
            rest.insert(prs.last().url)
        } else {
            rest
        }
    }
}

/// Check every actionable (waiting / should) PR that no link hides. The text filter
/// of the list does not matter here.
pub fn select_actionable(
    selected: &mut TextSet,
    prs: &Vec<PullRequestSummary>,
    excludes: &Vec<String>,
    reviews: &TextMap<AiReview>,
)
    ensures
        final(selected)@ == with_actionable(
            old(selected)@,
            pr_models(prs@),
            texts(excludes@),
            reviews@,
        ),
{
    let ghost start = selected@;
    let ghost all = pr_models(prs@);
    for i in 0..prs.len()
        invariant
            all == pr_models(prs@),
            selected@ == with_actionable(start, all.take(i as int), texts(excludes@), reviews@),
    {
        proof {
            assert(all.take(i + 1).drop_last() =~= all.take(i as int));
            assert(all.take(i + 1).last() == prs@[i as int]@);
        }
        let waits: bool = match prs[i].review_status() {
            ReviewStatus::RequestedUntouched => true,
            ReviewStatus::RequestedOthersReviewed => true,
            _ => false,
        };
        if !is_excluded(prs[i].url.as_str(), excludes) && waits && !blocks_selection(
            reviews,
            &prs[i],
        ) {
            selected.insert(prs[i].url.clone());
        }
    }
    assert(all.take(all.len() as int) =~= all);
}

/// What the selection column of a PR shows.
#[derive(Clone, Copy, PartialEq, Eq, Structural, Debug)]
pub enum SelectCell {
    /// A checkbox that cannot be clicked: a review tab is running.
    Blocked,
    /// A checkbox; checked or not.
    Open { checked: bool },
    /// A checkbox of a PR with a prior review to go on from; checked or not.
    Again { checked: bool },
}

/// What the selection column of a PR shows.
pub open spec fn select_state(
    reviews: Map<Seq<char>, AiModel>,
    selected: Set<Seq<char>>,
    pr: PullRequestModel,
) -> SelectCell {
    let checked = selected.contains(pr.url);
    if blocked(reviews, pr) {
        SelectCell::Blocked
    } else if prior_review(reviews, pr) is Some {
        SelectCell::Again { checked }
    } else {
        SelectCell::Open { checked }
    }
}

/// What the selection column of a PR shows.
pub fn select_cell(
    reviews: &TextMap<AiReview>,
    selected: &TextSet,
    pr: &PullRequestSummary,
) -> (r: SelectCell)
    ensures
        r == select_state(reviews@, selected@, pr@),
{
    let checked: bool = selected.contains(pr.url.as_str());
    if blocks_selection(reviews, pr) {
        SelectCell::Blocked
    } else if re_review_target(reviews, pr).is_some() {
        SelectCell::Again { checked }
    } else {
        SelectCell::Open { checked }
    }
}

/// Turns the selection of each of the PRs around, one after the other.
pub open spec fn toggled(selected: Set<Seq<char>>, urls: Seq<Seq<char>>) -> Set<Seq<char>>
    decreases urls.len(),
{
    if urls.len() == 0 {
        selected
    } else {
        let rest = toggled(selected, urls.drop_last());
        if rest.contains(urls.last()) {
            rest.remove(urls.last())
        } else {
            rest.insert(urls.last())
        }
    }
}

/// Turns the selection of each of the PRs around whose checkbox was clicked.
pub fn toggle(selected: &mut TextSet, urls: &Vec<String>)
    ensures
        final(selected)@ == toggled(old(selected)@, texts(urls@)),
{
    let ghost start = selected@;
    let ghost all = texts(urls@);
    for i in 0..urls.len()
        invariant
            all == texts(urls@),
            selected@ == toggled(start, all.take(i as int)),
    {
        proof {
            assert(all.take(i + 1).drop_last() =~= all.take(i as int));
            assert(all.take(i + 1).last() == urls@[i as int]@);
        }
        let ghost was = selected@;
        if !selected.remove(urls[i].as_str()) {
            assert(was.remove(urls@[i as int]@) =~= was);
            selected.insert(urls[i].clone());
        }
    }
    assert(all.take(all.len() as int) =~= all);
}

/// A PR to review, and the prior review to go on from, if any.
pub struct Target {
    pub url: String,
    pub key: String,
    pub prior: Option<LaunchedRecord>,
}

/// What a PR to review is.
#[verifier::ext_equal]
pub struct TargetModel {
    pub url: Seq<char>,
    pub key: Seq<char>,
    pub prior: Option<LaunchedModel>,
}

impl View for Target {
    type V = TargetModel;

    open spec fn view(&self) -> TargetModel {
        TargetModel { url: self.url@, key: self.key@, prior: launched_model(self.prior) }
    }
}

/// The targets of a list.
pub open spec fn target_models(list: Seq<Target>) -> Seq<TargetModel> {
    list.map_values(|t: Target| t@)
}

/// The PRs to review: those that are selected and can be.
pub open spec fn targets(
    prs: Seq<PullRequestModel>,
    selected: Set<Seq<char>>,
    reviews: Map<Seq<char>, AiModel>,
) -> Seq<TargetModel>
    decreases prs.len(),
{
    if prs.len() == 0 {
        Seq::empty()
    } else {
        let rest = targets(prs.drop_last(), selected, reviews);
        let pr = prs.last();
        if selected.contains(pr.url) && !blocked(reviews, pr) {
            rest.push(
                TargetModel { url: pr.url, key: pr.key(), prior: prior_review(reviews, pr) },
            )
        } else {
            rest
        }
    }
}

impl TargetModel {
    /// The key to launch the review under: the old tab's name where a prior review
    /// goes on, the PR's own key otherwise.
    pub open spec fn launch_key(self) -> Seq<char> {
        match self.prior {
            Some(record) => record.window_name,
            None => self.key,
        }
    }
}

impl Target {
    /// The key to launch the review under: the old tab's name where a prior review
    /// goes on, the PR's own key otherwise.
    pub fn launch_key(&self) -> (r: String)
        ensures
            r@ == self@.launch_key(),
    {
        match &self.prior {
            Some(record) => record.window_name.clone(),
            None => self.key.clone(),
        }
    }
}

/// The selection without the targets.
pub open spec fn deselected(selected: Set<Seq<char>>, list: Seq<TargetModel>) -> Set<Seq<char>>
    decreases list.len(),
{
    if list.len() == 0 {
        selected
    } else {
        deselected(selected, list.drop_last()).remove(list.last().url)
    }
}

/// The reviews with the targets pending.
pub open spec fn with_pending(
    reviews: Map<Seq<char>, AiModel>,
    list: Seq<TargetModel>,
) -> Map<Seq<char>, AiModel>
    decreases list.len(),
{
    if list.len() == 0 {
        reviews
    } else {
        with_pending(reviews, list.drop_last()).insert(list.last().url, AiModel::Pending)
    }
}

fn find_targets(
    prs: &Vec<PullRequestSummary>,
    selected: &TextSet,
    reviews: &TextMap<AiReview>,
) -> (r: Vec<Target>)
    ensures
        target_models(r@) == targets(pr_models(prs@), selected@, reviews@),
{
    let ghost all = pr_models(prs@);
    let mut out: Vec<Target> = Vec::new();
    assert(target_models(out@) =~= Seq::empty());
    for i in 0..prs.len()
        invariant
            all == pr_models(prs@),
            target_models(out@) == targets(all.take(i as int), selected@, reviews@),
    {
        let ghost earlier = target_models(out@);
        proof {
            assert(all.take(i + 1).drop_last() =~= all.take(i as int));
            assert(all.take(i + 1).last() == prs@[i as int]@);
        }
        if selected.contains(prs[i].url.as_str()) && !blocks_selection(reviews, &prs[i]) {
            let target = Target {
                url: prs[i].url.clone(),
                key: prs[i].pr_key(),
                prior: re_review_target(reviews, &prs[i]),
            };
            let ghost it = target@;
            out.push(target);
            assert(target_models(out@) =~= earlier.push(it));
        }
    }
    assert(all.take(all.len() as int) =~= all);
    out
}

/// The selected PRs to review now. They leave the selection and are pending until
/// the outcome of their launch is in place.
pub fn start_ai_reviews(
    prs: &Vec<PullRequestSummary>,
    selected: &mut TextSet,
    reviews: &mut TextMap<AiReview>,
) -> (r: Vec<Target>)
    ensures
        target_models(r@) == targets(pr_models(prs@), old(selected)@, old(reviews)@),
        final(selected)@ == deselected(old(selected)@, target_models(r@)),
        final(reviews)@ == with_pending(old(reviews)@, target_models(r@)),
{
    let list = find_targets(prs, selected, reviews);
    let ghost all = target_models(list@);
    let ghost before_selected = selected@;
    let ghost before_reviews = reviews@;
    for i in 0..list.len()
        invariant
            all == target_models(list@),
            selected@ == deselected(before_selected, all.take(i as int)),
            reviews@ == with_pending(before_reviews, all.take(i as int)),
    {
        proof {
            assert(all.take(i + 1).drop_last() =~= all.take(i as int));
            assert(all.take(i + 1).last() == list@[i as int]@);
        }
        let _ = selected.remove(list[i].url.as_str());
        reviews.insert(list[i].url.clone(), AiReview::Pending);
    }
    assert(all.take(all.len() as int) =~= all);
    list
}

/// The review whose tab is to be reopened. It is pending until the outcome of its
/// launch is in place.
pub fn reopen(reviews: &mut TextMap<AiReview>, url: &str, record: &LaunchedRecord) -> (r: Target)
    ensures
        r@ == (TargetModel { url: url@, key: record@.window_name, prior: Some(record@) }),
        final(reviews)@ == old(reviews)@.insert(url@, AiModel::Pending),
{
    reviews.insert(url.to_owned(), AiReview::Pending);
    Target {
        url: url.to_owned(),
        key: record.window_name.clone(),
        prior: Some(record.copy()),
    }
}

/// What is to be done next for PRs that are launched one after the other.
#[derive(Clone, Copy, PartialEq, Eq, Structural, Debug)]
pub enum BatchStep {
    /// Launch the PR at this place.
    Launch(usize),
    /// Hand over the outcome of the PR at this place.
    Tell(usize),
    /// Show the herdr client, and leave a visible one alone if `keep_existing`.
    Show { keep_existing: bool },
    /// Nothing more.
    Done,
}

/// The next step for `count` PRs: `launched` says of each that was tried whether it
/// was launched, `told` how many outcomes were handed over, and `shown` whether the
/// herdr client was shown. New reviews hand over each outcome at once; a review that
/// is reopened does so after the client was shown.
pub open spec fn batch_next(
    count: int,
    reopening: bool,
    launched: Seq<bool>,
    told: int,
    shown: bool,
) -> BatchStep {
    if !reopening && told < launched.len() {
        BatchStep::Tell(told as usize)
    } else if launched.len() < count {
        BatchStep::Launch(launched.len() as usize)
    } else if !shown && launched.contains(true) {
        BatchStep::Show { keep_existing: !reopening }
    } else if told < launched.len() {
        BatchStep::Tell(told as usize)
    } else {
        BatchStep::Done
    }
}

/// The next step for `count` PRs that are launched one after the other.
pub fn next_launch(
    count: usize,
    reopening: bool,
    launched: &Vec<bool>,
    told: usize,
    shown: bool,
) -> (r: BatchStep)
    ensures
        r == batch_next(count as int, reopening, launched@, told as int, shown),
{
    if !reopening && told < launched.len() {
        return BatchStep::Tell(told);
    }
    if launched.len() < count {
        return BatchStep::Launch(launched.len());
    }
    let mut any: bool = false;
    for i in 0..launched.len()
        invariant
            any == exists|j: int| 0 <= j < i && launched@[j],
    {
        if launched[i] {
            any = true;
        }
    }
    assert(any == launched@.contains(true)) by {
        if any {
            let j = choose|j: int| 0 <= j < launched@.len() && launched@[j];
            assert(launched@[j] == true);
        }
    }
    if !shown && any {
        BatchStep::Show { keep_existing: !reopening }
    } else if told < launched.len() {
        BatchStep::Tell(told)
    } else {
        BatchStep::Done
    }
}

/// The herdr client is shown at most once, after all launches, and only where one
/// of them was successful; the work ends with every PR tried, every outcome handed
/// over, and the client shown if one was launched.
pub proof fn law_batch(
    count: int,
    reopening: bool,
    launched: Seq<bool>,
    told: int,
    shown: bool,
)
    requires
        0 <= told <= launched.len() <= count <= usize::MAX,
    ensures
        batch_next(count, reopening, launched, told, shown) is Show ==> !shown && launched.len()
            == count && launched.contains(true),
        batch_next(count, reopening, launched, told, shown) is Done ==> launched.len() == count
            && told == count && (launched.contains(true) ==> shown),
        batch_next(count, reopening, launched, told, shown) matches BatchStep::Launch(i) ==> i
            == launched.len() < count,
        batch_next(count, reopening, launched, told, shown) matches BatchStep::Tell(i) ==> i
            == told < launched.len(),
{
}

/// What became of a launch, as it is handed over.
pub fn outcome_of(result: Result<LaunchedRecord, String>) -> (r: AiActionOutcome)
    ensures
        r == (match result {
            Ok(record) => AiActionOutcome::Launched(record),
            Err(reason) => AiActionOutcome::Failed(reason),
        }),
{
    match result {
        Ok(record) => AiActionOutcome::Launched(record),
        Err(reason) => AiActionOutcome::Failed(reason),
    }
}

/// What a click in the AI column asks for.
pub enum CellAction {
    /// Bring the tab of a launched run to the front.
    Focus(LaunchedRecord),
    /// Reopen a run whose herdr tab is gone.
    Reopen(LaunchedRecord),
    /// Open a saved report.
    OpenReport(String),
    /// Resume a session in a terminal.
    Resume(String),
    /// Nothing: a plain text.
    Plain,
    /// Nothing for now: a disabled button.
    Wait,
    /// Nothing: a text that reports a failure.
    Report,
}

/// What a click in the AI column asks for.
#[verifier::ext_equal]
pub enum ActionModel {
    Focus(LaunchedModel),
    Reopen(LaunchedModel),
    OpenReport(Seq<char>),
    Resume(Seq<char>),
    Plain,
    Wait,
    Report,
}

/// One thing in the AI column: its text, what hovering shows, and what a click does.
pub struct CellItem {
    pub text: String,
    pub hover: String,
    pub action: CellAction,
}

/// What one thing in the AI column is.
#[verifier::ext_equal]
pub struct ItemModel {
    pub text: Seq<char>,
    pub hover: Seq<char>,
    pub action: ActionModel,
}

impl View for CellItem {
    type V = ItemModel;

    open spec fn view(&self) -> ItemModel {
        ItemModel {
            text: self.text@,
            hover: self.hover@,
            action: match self.action {
                CellAction::Focus(record) => ActionModel::Focus(record@),
                CellAction::Reopen(record) => ActionModel::Reopen(record@),
                CellAction::OpenReport(path) => ActionModel::OpenReport(path@),
                CellAction::Resume(id) => ActionModel::Resume(id@),
                CellAction::Plain => ActionModel::Plain,
                CellAction::Wait => ActionModel::Wait,
                CellAction::Report => ActionModel::Report,
            },
        }
    }
}

/// The things of a list.
pub open spec fn item_models(list: Seq<CellItem>) -> Seq<ItemModel> {
    list.map_values(|i: CellItem| i@)
}

/// The AI column of a PR: the state of its review, with the hand-off to the report
/// and the conversation once the review has finished.
pub open spec fn cell_items(review: Option<AiModel>) -> Seq<ItemModel> {
    match review {
        None => seq![ItemModel { text: "-"@, hover: ""@, action: ActionModel::Plain }],
        Some(AiModel::Pending) => seq![
            ItemModel {
                text: "…"@,
                hover: "herdr とやり取り中です（数秒〜数十秒かかることがあります）"@,
                action: ActionModel::Wait,
            },
        ],
        Some(AiModel::Launched(record)) => seq![
            ItemModel {
                text: "herdr"@,
                hover: "実行中。クリックでこの PR のタブを前面に表示"@,
                action: ActionModel::Focus(record),
            },
        ],
        Some(AiModel::Resumable(record)) => seq![
            ItemModel {
                text: "続き"@,
                hover: "herdr の再起動などでタブが消えましたが、会話は保存されているので新しいタブで再開できます"@,
                action: ActionModel::Reopen(record),
            },
        ],
        Some(AiModel::Done(record)) => {
            let open = match record.report_path {
                Some(path) => seq![
                    ItemModel {
                        text: "結果"@,
                        hover: "保存済みのレビューレポートを開く"@,
                        action: ActionModel::OpenReport(path),
                    },
                ],
                None => Seq::empty(),
            };
            open.push(
                ItemModel {
                    text: "続き"@,
                    hover: "ターミナルでこのレビューの会話を再開（実行日: "@ + first_chars(
                        record.completed_at,
                        10,
                    ) + "）"@,
                    action: ActionModel::Resume(record.session_id),
                },
            )
        },
        Some(AiModel::Failed(reason)) => seq![
            ItemModel {
                text: "失敗"@,
                hover: reason + "\n（再選択して実行し直せます）"@,
                action: ActionModel::Report,
            },
        ],
    }
}

/// The review that a map holds for a URL.
pub open spec fn review_at(reviews: Map<Seq<char>, AiModel>, url: Seq<char>) -> Option<AiModel> {
    if reviews.contains_key(url) {
        Some(reviews[url])
    } else {
        None
    }
}

fn item(text: &str, hover: &str, action: CellAction) -> (r: CellItem)
    ensures
        r.text@ == text@,
        r.hover@ == hover@,
        r.action == action,
{
    CellItem { text: text.to_owned(), hover: hover.to_owned(), action }
}

/// The AI column of the PR at a URL.
pub fn ai_cell(reviews: &TextMap<AiReview>, url: &str) -> (r: Vec<CellItem>)
    ensures
        item_models(r@) == cell_items(review_at(reviews@, url@)),
{
    let mut out: Vec<CellItem> = Vec::new();
    match reviews.get(url) {
        None => out.push(item("-", "", CellAction::Plain)),
        Some(AiReview::Pending) => out.push(
            item(
                "…",
                "herdr とやり取り中です（数秒〜数十秒かかることがあります）",
                CellAction::Wait,
            ),
        ),
        Some(AiReview::Launched(record)) => out.push(
            item(
                "herdr",
                "実行中。クリックでこの PR のタブを前面に表示",
                CellAction::Focus(record.copy()),
            ),
        ),
        Some(AiReview::Resumable(record)) => out.push(
            item(
                "続き",
                "herdr の再起動などでタブが消えましたが、会話は保存されているので新しいタブで再開できます",
                CellAction::Reopen(record.copy()),
            ),
        ),
        Some(AiReview::Done(record)) => {
            if let Some(path) = &record.report_path {
                out.push(
                    item(
                        "結果",
                        "保存済みのレビューレポートを開く",
                        CellAction::OpenReport(path.clone()),
                    ),
                );
            }
            let hover = cat3(
                "ターミナルでこのレビューの会話を再開（実行日: ",
                date10(record.completed_at.as_str()).as_str(),
                "）",
            );
            out.push(item("続き", hover.as_str(), CellAction::Resume(record.session_id.clone())));
        },
        Some(AiReview::Failed(reason)) => {
            let hover = cat(reason.as_str(), "\n（再選択して実行し直せます）");
            out.push(item("失敗", hover.as_str(), CellAction::Report));
        },
    }
    assert(item_models(out@) =~= cell_items(review_at(reviews@, url@)));
    out
}

/// What is kept on disk of launched reviews is what was restored from there.
pub proof fn law_restored_is_kept(
    sessions: Map<Seq<char>, SessionModel>,
    kept: Map<Seq<char>, LaunchedModel>,
    on_disk: Map<Seq<char>, LaunchedModel>,
)
    ensures
        kept_on_disk(restored(sessions, all_alive(kept)), on_disk) == kept,
{
    assert(kept_on_disk(restored(sessions, all_alive(kept)), on_disk) =~= kept);
}

/// A failed launch, and one in flight, leave the PR's prior record on disk as it was
/// and add none where there was none; what is kept of all other PRs does not change.
pub proof fn law_failure_keeps_record(
    reviews: Map<Seq<char>, AiModel>,
    on_disk: Map<Seq<char>, LaunchedModel>,
    url: Seq<char>,
    reason: Seq<char>,
)
    ensures
        ({
            let failed = reviews.insert(url, after_outcome(OutcomeModel::Failed(reason)));
            let pending = reviews.insert(url, AiModel::Pending);
            let others = kept_on_disk(reviews, on_disk).remove(url);
            &&& kept_on_disk(failed, on_disk) == if on_disk.contains_key(url) {
                others.insert(url, on_disk[url])
            } else {
                others
            }
            &&& kept_on_disk(pending, on_disk) == kept_on_disk(failed, on_disk)
        }),
{
    let failed = reviews.insert(url, after_outcome(OutcomeModel::Failed(reason)));
    let pending = reviews.insert(url, AiModel::Pending);
    let others = kept_on_disk(reviews, on_disk).remove(url);
    if on_disk.contains_key(url) {
        assert(kept_on_disk(failed, on_disk) =~= others.insert(url, on_disk[url]));
    } else {
        assert(kept_on_disk(failed, on_disk) =~= others);
    }
    assert(kept_on_disk(pending, on_disk) =~= kept_on_disk(failed, on_disk));
}

/// A successful launch is kept on disk, and what is kept of all other PRs does not
/// change.
pub proof fn law_launch_is_kept(
    reviews: Map<Seq<char>, AiModel>,
    on_disk: Map<Seq<char>, LaunchedModel>,
    url: Seq<char>,
    record: LaunchedModel,
)
    ensures
        kept_on_disk(
            reviews.insert(url, after_outcome(OutcomeModel::Launched(record))),
            on_disk,
        ) == kept_on_disk(reviews, on_disk).insert(url, record),
{
    assert(kept_on_disk(
        reviews.insert(url, after_outcome(OutcomeModel::Launched(record))),
        on_disk,
    ) =~= kept_on_disk(reviews, on_disk).insert(url, record));
}

/// Of a batch of outcomes each PR's last one counts: a launch is kept on disk, and a
/// failure leaves the PR's prior record there as it was, whatever else came in.
pub proof fn law_batch_keeps_records(
    reviews: Map<Seq<char>, AiModel>,
    on_disk: Map<Seq<char>, LaunchedModel>,
    list: Seq<FinishedModel>,
    i: int,
)
    requires
        0 <= i < list.len(),
        forall|j: int| i < j < list.len() ==> (#[trigger] list[j]).url != list[i].url,
    ensures
        ({
            let url = list[i].url;
            let now = with_outcomes(reviews, list);
            let kept = kept_on_disk(now, on_disk);
            &&& now.contains_key(url) && now[url] == after_outcome(list[i].outcome)
            &&& match list[i].outcome {
                OutcomeModel::Launched(record) => kept.contains_key(url) && kept[url] == record,
                OutcomeModel::Failed(_) => {
                    &&& kept.contains_key(url) <==> on_disk.contains_key(url)
                    &&& on_disk.contains_key(url) ==> kept[url] == on_disk[url]
                },
            }
        }),
    decreases list.len(),
{
    if i < list.len() - 1 {
        let rest = list.drop_last();
        assert forall|j: int| i < j < rest.len() implies (#[trigger] rest[j]).url
            != rest[i].url by {
            assert(list[j].url != list[i].url);
        }
        law_batch_keeps_records(reviews, on_disk, rest, i);
        assert(list[list.len() - 1].url != list[i].url);
    }
}

proof fn lemma_pending(
    selected: Set<Seq<char>>,
    reviews: Map<Seq<char>, AiModel>,
    list: Seq<TargetModel>,
    url: Seq<char>,
)
    ensures
        ({
            let hit = exists|i: int| 0 <= i < list.len() && (#[trigger] list[i]).url == url;
            &&& deselected(selected, list).contains(url) <==> selected.contains(url) && !hit
            &&& hit ==> with_pending(reviews, list).contains_key(url) && with_pending(
                reviews,
                list,
            )[url] == AiModel::Pending
            &&& !hit ==> (with_pending(reviews, list).contains_key(url) <==> reviews.contains_key(
                url,
            ))
            &&& !hit && reviews.contains_key(url) ==> with_pending(reviews, list)[url]
                == reviews[url]
        }),
    decreases list.len(),
{
    if list.len() > 0 {
        let rest = list.drop_last();
        lemma_pending(selected, reviews, rest, url);
        let hit = exists|i: int| 0 <= i < list.len() && (#[trigger] list[i]).url == url;
        let hit_rest = exists|i: int| 0 <= i < rest.len() && (#[trigger] rest[i]).url == url;
        if hit && list.last().url != url {
            let i = choose|i: int| 0 <= i < list.len() && (#[trigger] list[i]).url == url;
            assert(rest[i].url == url);
        }
        if hit_rest {
            let i = choose|i: int| 0 <= i < rest.len() && (#[trigger] rest[i]).url == url;
            assert(list[i].url == url);
        }
        if list.last().url == url {
            assert(list[list.len() - 1].url == url);
        }
    }
}

proof fn lemma_targets(
    prs: Seq<PullRequestModel>,
    selected: Set<Seq<char>>,
    reviews: Map<Seq<char>, AiModel>,
    url: Seq<char>,
)
    ensures
        ({
            let list = targets(prs, selected, reviews);
            let hit = exists|i: int| 0 <= i < list.len() && (#[trigger] list[i]).url == url;
            hit <==> selected.contains(url) && exists|i: int|
                0 <= i < prs.len() && (#[trigger] prs[i]).url == url && !blocked(reviews, prs[i])
        }),
    decreases prs.len(),
{
    let list = targets(prs, selected, reviews);
    if prs.len() > 0 {
        let less = prs.drop_last();
        let rest = targets(less, selected, reviews);
        let pr = prs.last();
        lemma_targets(less, selected, reviews, url);
        let hit = exists|i: int| 0 <= i < list.len() && (#[trigger] list[i]).url == url;
        let open = exists|i: int|
            0 <= i < prs.len() && (#[trigger] prs[i]).url == url && !blocked(reviews, prs[i]);
        if hit {
            let i = choose|i: int| 0 <= i < list.len() && (#[trigger] list[i]).url == url;
            if i < rest.len() {
                assert(rest[i].url == url);
                let j = choose|j: int|
                    0 <= j < less.len() && (#[trigger] less[j]).url == url && !blocked(
                        reviews,
                        less[j],
                    );
                assert(prs[j].url == url);
            } else {
                assert(prs[prs.len() - 1].url == url);
            }
        }
        if open && selected.contains(url) {
            let j = choose|j: int|
                0 <= j < prs.len() && (#[trigger] prs[j]).url == url && !blocked(reviews, prs[j]);
            if j < less.len() {
                assert(less[j].url == url);
                let i = choose|i: int| 0 <= i < rest.len() && (#[trigger] rest[i]).url == url;
                assert(list[i].url == url);
            } else {
                assert(list[rest.len() as int].url == url);
            }
        }
    }
}

/// Starting reviews takes exactly the selected PRs that are not blocked. Those that
/// are started leave the selection, and are pending, so that no second launch can
/// start on top; all others stay as they were.
pub proof fn law_started_are_pending(
    prs: Seq<PullRequestModel>,
    selected: Set<Seq<char>>,
    reviews: Map<Seq<char>, AiModel>,
    pr: PullRequestModel,
)
    requires
        prs.contains(pr),
    ensures
        ({
            let list = targets(prs, selected, reviews);
            let now = with_pending(reviews, list);
            let started = exists|i: int| 0 <= i < list.len() && (#[trigger] list[i]).url == pr.url;
            &&& selected.contains(pr.url) && !blocked(reviews, pr) ==> started
            &&& started ==> blocked(now, pr) && !deselected(selected, list).contains(pr.url)
            &&& !started ==> review_at(now, pr.url) == review_at(reviews, pr.url) && (deselected(
                selected,
                list,
            ).contains(pr.url) <==> selected.contains(pr.url))
        }),
{
    let list = targets(prs, selected, reviews);
    lemma_targets(prs, selected, reviews, pr.url);
    lemma_pending(selected, reviews, list, pr.url);
    let j = choose|j: int| 0 <= j < prs.len() && prs[j] == pr;
    assert(prs[j].url == pr.url);
}

/// A PR with a launch in flight is blocked always. A PR with a live tab is blocked
/// unless it waits for the viewer; so one that is asked for again after a review is
/// not, even while the old tab is open. A PR without either can be selected.
pub proof fn law_blocked(reviews: Map<Seq<char>, AiModel>, pr: PullRequestModel)
    ensures
        review_at(reviews, pr.url) == Some(AiModel::Pending) ==> blocked(reviews, pr),
        launched_at(reviews, pr.url) ==> (blocked(reviews, pr) <==> pr.status()
            != ReviewStatus::RequestedUntouched),
        review_at(reviews, pr.url) != Some(AiModel::Pending) && pr.requested_for_user
            && pr.my_latest_review is Some ==> !blocked(reviews, pr),
        review_at(reviews, pr.url) != Some(AiModel::Pending) && !launched_at(reviews, pr.url)
            ==> !blocked(reviews, pr),
{
}

/// Selecting the actionable PRs keeps what is selected and adds exactly those.
pub proof fn law_actionable_selected(
    selected: Set<Seq<char>>,
    prs: Seq<PullRequestModel>,
    excludes: Seq<Seq<char>>,
    reviews: Map<Seq<char>, AiModel>,
    url: Seq<char>,
)
    ensures
        with_actionable(selected, prs, excludes, reviews).contains(url) <==> selected.contains(url)
            || exists|i: int|
            0 <= i < prs.len() && (#[trigger] prs[i]).url == url && actionable(
                prs[i],
                excludes,
                reviews,
            ),
    decreases prs.len(),
{
    if prs.len() > 0 {
        let less = prs.drop_last();
        law_actionable_selected(selected, less, excludes, reviews, url);
        let some = exists|i: int|
            0 <= i < prs.len() && (#[trigger] prs[i]).url == url && actionable(
                prs[i],
                excludes,
                reviews,
            );
        let fewer = exists|i: int|
            0 <= i < less.len() && (#[trigger] less[i]).url == url && actionable(
                less[i],
                excludes,
                reviews,
            );
        if some {
            let i = choose|i: int|
                0 <= i < prs.len() && (#[trigger] prs[i]).url == url && actionable(
                    prs[i],
                    excludes,
                    reviews,
                );
            if i < less.len() {
                assert(less[i].url == url);
            }
        }
        if fewer {
            let i = choose|i: int|
                0 <= i < less.len() && (#[trigger] less[i]).url == url && actionable(
                    less[i],
                    excludes,
                    reviews,
                );
            assert(prs[i].url == url);
        }
        if actionable(prs.last(), excludes, reviews) && prs.last().url == url {
            assert(prs[prs.len() - 1].url == url);
        }
    }
}

/// Clicking a checkbox twice changes nothing.
pub proof fn law_toggle_twice(selected: Set<Seq<char>>, url: Seq<char>)
    ensures
        toggled(selected, seq![url, url]) == selected,
{
    reveal_with_fuel(toggled, 3);
    let two = seq![url, url];
    assert(two.drop_last() =~= seq![url]);
    assert(seq![url].drop_last() =~= Seq::empty());
    assert(toggled(selected, two) =~= selected);
}

/// After a restart a pull request has the launched review that is on record, running
/// where its tab is alive and to be reopened where it is gone; else the session that
/// is on record; else nothing.
pub proof fn law_restored(
    sessions: Map<Seq<char>, SessionModel>,
    launched: Map<Seq<char>, RestoredModel>,
    url: Seq<char>,
)
    ensures
        ({
            let now = review_at(restored(sessions, launched), url);
            &&& launched.contains_key(url) && launched[url].is_live ==> now == Some(
                AiModel::Launched(launched[url].record),
            )
            &&& launched.contains_key(url) && !launched[url].is_live ==> now == Some(
                AiModel::Resumable(launched[url].record),
            )
            &&& !launched.contains_key(url) && sessions.contains_key(url) ==> now == Some(
                AiModel::Done(sessions[url]),
            )
            &&& !launched.contains_key(url) && !sessions.contains_key(url) ==> now is None
        }),
{
}

/// What is on record of launched reviews: the record of each that runs or can be
/// reopened; for one whose launch is under way or failed, what was on record before;
/// and nothing of any other.
pub proof fn law_kept_records(
    reviews: Map<Seq<char>, AiModel>,
    on_disk: Map<Seq<char>, LaunchedModel>,
    url: Seq<char>,
)
    ensures
        ({
            let kept = kept_on_disk(reviews, on_disk);
            match review_at(reviews, url) {
                Some(AiModel::Launched(record)) => kept.contains_key(url) && kept[url] == record,
                Some(AiModel::Resumable(record)) => kept.contains_key(url) && kept[url] == record,
                Some(AiModel::Done(_)) => !kept.contains_key(url),
                Some(_) => {
                    &&& kept.contains_key(url) <==> on_disk.contains_key(url)
                    &&& kept.contains_key(url) ==> kept[url] == on_disk[url]
                },
                None => !kept.contains_key(url),
            }
        }),
{
}

/// Outcomes that come in change the reviews that they are of and no others; of two
/// for one pull request the later counts.
pub proof fn law_outcomes(
    reviews: Map<Seq<char>, AiModel>,
    list: Seq<FinishedModel>,
    url: Seq<char>,
)
    ensures
        ({
            let now = review_at(with_outcomes(reviews, list), url);
            &&& (forall|i: int| 0 <= i < list.len() ==> (#[trigger] list[i]).url != url) ==> now
                == review_at(reviews, url)
            &&& forall|i: int|
                0 <= i < list.len() && (#[trigger] list[i]).url == url && (forall|j: int|
                    i < j < list.len() ==> (#[trigger] list[j]).url != url) ==> match list[i].outcome {
                    OutcomeModel::Launched(record) => now == Some(AiModel::Launched(record)),
                    OutcomeModel::Failed(reason) => now == Some(AiModel::Failed(reason)),
                }
        }),
    decreases list.len(),
{
    if list.len() > 0 {
        let less = list.drop_last();
        law_outcomes(reviews, less, url);
        let now = review_at(with_outcomes(reviews, list), url);
        assert forall|i: int|
            0 <= i < list.len() && (#[trigger] list[i]).url == url && (forall|j: int|
                i < j < list.len() ==> (#[trigger] list[j]).url != url) implies match list[i].outcome {
            OutcomeModel::Launched(record) => now == Some(AiModel::Launched(record)),
            OutcomeModel::Failed(reason) => now == Some(AiModel::Failed(reason)),
        } by {
            if i < less.len() {
                assert(less[i].url == url);
                assert(list[list.len() - 1].url != url);
                assert forall|j: int| i < j < less.len() implies (#[trigger] less[j]).url != url by {
                    assert(list[j].url != url);
                }
            }
        }
        if forall|i: int| 0 <= i < list.len() ==> (#[trigger] list[i]).url != url {
            assert(list[list.len() - 1].url != url);
            assert forall|i: int| 0 <= i < less.len() implies (#[trigger] less[i]).url != url by {
                assert(list[i].url != url);
            }
        }
    }
}

/// Whether a review is asked of the user and waits: nobody has reviewed, or it is
/// asked again after the user's own review.
pub open spec fn waits(pr: PullRequestModel) -> bool {
    pr.requested_for_user && (pr.my_latest_review is Some || pr.other_latest_reviews.len() == 0)
}

/// A review is gone on from where the pull request waits for the user and has a
/// review that runs or can be reopened; a pull request cannot be selected while a
/// launch is under way, nor while a review runs that cannot be gone on from; and the
/// checkbox says so, and whether it is checked.
pub proof fn law_selection(
    reviews: Map<Seq<char>, AiModel>,
    selected: Set<Seq<char>>,
    pr: PullRequestModel,
)
    ensures
        ({
            let now = review_at(reviews, pr.url);
            let checked = selected.contains(pr.url);
            &&& prior_review(reviews, pr) == match now {
                Some(AiModel::Launched(record)) => if waits(pr) {
                    Some(record)
                } else {
                    None
                },
                Some(AiModel::Resumable(record)) => if waits(pr) {
                    Some(record)
                } else {
                    None
                },
                _ => None,
            }
            &&& blocked(reviews, pr) <==> now == Some(AiModel::Pending) || (now matches Some(
                AiModel::Launched(_),
            ) && !waits(pr))
            &&& select_state(reviews, selected, pr) == match now {
                Some(AiModel::Pending) => SelectCell::Blocked,
                Some(AiModel::Launched(_)) => if waits(pr) {
                    SelectCell::Again { checked }
                } else {
                    SelectCell::Blocked
                },
                Some(AiModel::Resumable(_)) => if waits(pr) {
                    SelectCell::Again { checked }
                } else {
                    SelectCell::Open { checked }
                },
                _ => SelectCell::Open { checked },
            }
        }),
{
    crate::model::law_status_classes(pr);
}

/// Those to be acted on are those of which a review is asked, that no link hides and
/// that can be selected.
pub proof fn law_actionable(
    pr: PullRequestModel,
    excludes: Seq<Seq<char>>,
    reviews: Map<Seq<char>, AiModel>,
)
    ensures
        actionable(pr, excludes, reviews) <==> pr.requested_for_user && !excluded(pr.url, excludes)
            && !blocked(reviews, pr),
{
    crate::model::law_status_classes(pr);
}

/// The reviews that are started are those of the listed pull requests that are
/// selected and can be, in order, each with its address, what it is called, and the
/// review to go on from; a review that goes on keeps the name of its tab.
pub proof fn law_targets(
    prs: Seq<PullRequestModel>,
    selected: Set<Seq<char>>,
    reviews: Map<Seq<char>, AiModel>,
)
    ensures
        ({
            let list = targets(prs, selected, reviews);
            exists|places: Seq<int>|
                {
                    &&& #[trigger] goes_up(places)
                    &&& forall|k: int| #[trigger]
                        places.contains(k) <==> 0 <= k < prs.len() && selected.contains(prs[k].url)
                            && !blocked(reviews, prs[k])
                    &&& list.len() == places.len()
                    &&& forall|i: int|
                        0 <= i < list.len() ==> {
                            let pr = prs[places[i]];
                            &&& (#[trigger] list[i]).url == pr.url
                            &&& list[i].key == pr.key()
                            &&& list[i].prior == prior_review(reviews, pr)
                            &&& list[i].launch_key() == match prior_review(reviews, pr) {
                                Some(record) => record.window_name,
                                None => pr.key(),
                            }
                        }
                }
        }),
    decreases prs.len(),
{
    let list = targets(prs, selected, reviews);
    if prs.len() == 0 {
        let none = Seq::<int>::empty();
        assert(goes_up(none));
    } else {
        let less = prs.drop_last();
        law_targets(less, selected, reviews);
        let was = targets(less, selected, reviews);
        let before = choose|places: Seq<int>|
            {
                &&& #[trigger] goes_up(places)
                &&& forall|k: int| #[trigger]
                    places.contains(k) <==> 0 <= k < less.len() && selected.contains(less[k].url)
                        && !blocked(reviews, less[k])
                &&& was.len() == places.len()
                &&& forall|i: int|
                    0 <= i < was.len() ==> {
                        let pr = less[places[i]];
                        &&& (#[trigger] was[i]).url == pr.url
                        &&& was[i].key == pr.key()
                        &&& was[i].prior == prior_review(reviews, pr)
                        &&& was[i].launch_key() == match prior_review(reviews, pr) {
                            Some(record) => record.window_name,
                            None => pr.key(),
                        }
                    }
            };
        let at = prs.len() - 1;
        let last = prs.last();
        let taken = selected.contains(last.url) && !blocked(reviews, last);
        let places = if taken {
            before.push(at)
        } else {
            before
        };
        assert forall|i: int| 0 <= i < before.len() implies 0 <= #[trigger] before[i] < at by {
            assert(before.contains(before[i]));
        }
        assert(goes_up(places));
        assert forall|k: int| #[trigger] places.contains(k) <==> 0 <= k < prs.len()
            && selected.contains(prs[k].url) && !blocked(reviews, prs[k]) by {
            if places.contains(k) {
                let i = choose|i: int| 0 <= i < places.len() && places[i] == k;
                if i < before.len() {
                    assert(before[i] == k);
                    assert(before.contains(k));
                    assert(less[k] == prs[k]);
                }
            }
            if 0 <= k < prs.len() && selected.contains(prs[k].url) && !blocked(reviews, prs[k]) {
                if k < at {
                    assert(less[k] == prs[k]);
                    assert(before.contains(k));
                    let i = choose|i: int| 0 <= i < before.len() && before[i] == k;
                    assert(places[i] == k);
                } else {
                    assert(places[before.len() as int] == k);
                }
            }
        }
        assert forall|i: int| 0 <= i < list.len() implies {
            let pr = prs[places[i]];
            &&& (#[trigger] list[i]).url == pr.url
            &&& list[i].key == pr.key()
            &&& list[i].prior == prior_review(reviews, pr)
            &&& list[i].launch_key() == match prior_review(reviews, pr) {
                Some(record) => record.window_name,
                None => pr.key(),
            }
        } by {
            if i < was.len() {
                assert(list[i] == was[i]);
                assert(less[before[i]] == prs[before[i]]);
            }
        }
    }
}

/// A click on a checkbox turns that one around and no other.
pub proof fn law_toggle_one(
    selected: Set<Seq<char>>,
    urls: Seq<Seq<char>>,
    url: Seq<char>,
    other: Seq<char>,
)
    requires
        other != url,
    ensures
        toggled(selected, Seq::empty()) == selected,
        toggled(selected, urls.push(url)).contains(url) <==> !toggled(selected, urls).contains(url),
        toggled(selected, urls.push(url)).contains(other) <==> toggled(selected, urls).contains(
            other,
        ),
{
    assert(urls.push(url).drop_last() =~= urls);
}

/// Where new reviews are launched, each outcome is handed over before the next
/// launch, and a herdr client that is there is left alone; where a review is
/// reopened, the client is brought up before the outcome is handed over.
pub proof fn law_batch_order(
    count: int,
    reopening: bool,
    launched: Seq<bool>,
    told: int,
    shown: bool,
)
    requires
        0 <= told <= launched.len() <= count <= usize::MAX,
    ensures
        batch_next(count, reopening, launched, told, shown) is Launch && !reopening ==> told
            == launched.len(),
        batch_next(count, reopening, launched, told, shown) matches BatchStep::Show {
            keep_existing,
        } ==> (keep_existing <==> !reopening),
        batch_next(count, reopening, launched, told, shown) is Tell && reopening
            && launched.contains(true) ==> shown,
        launched.len() < count && told == launched.len() ==> batch_next(
            count,
            reopening,
            launched,
            told,
            shown,
        ) is Launch,
        launched.len() == count && told == count && !shown && launched.contains(true)
            ==> batch_next(count, reopening, launched, told, shown) is Show,
{
}

/// The AI column: nothing for a pull request without a review; a wait while a launch
/// is under way; the tab of a running review, brought to the front on a click; a
/// review whose tab is gone, reopened on a click; a finished review, with its report
/// where one was saved, and its conversation; a failure, with its reason.
pub proof fn law_ai_column(review: Option<AiModel>)
    ensures
        ({
            let items = cell_items(review);
            match review {
                None => items.len() == 1 && items[0].action is Plain && items[0].text == "-"@,
                Some(AiModel::Pending) => items.len() == 1 && items[0].action is Wait,
                Some(AiModel::Launched(record)) => items.len() == 1 && items[0].action
                    == ActionModel::Focus(record) && items[0].text == "herdr"@,
                Some(AiModel::Resumable(record)) => items.len() == 1 && items[0].action
                    == ActionModel::Reopen(record) && items[0].text == "続き"@,
                Some(AiModel::Done(record)) => {
                    let last = items.last();
                    &&& last.action == ActionModel::Resume(record.session_id)
                    &&& last.text == "続き"@
                    &&& occurs(first_chars(record.completed_at, 10), last.hover)
                    &&& match record.report_path {
                        Some(path) => items.len() == 2 && items[0].action == ActionModel::OpenReport(
                            path,
                        ) && items[0].text == "結果"@,
                        None => items.len() == 1,
                    }
                },
                Some(AiModel::Failed(reason)) => items.len() == 1 && items[0].action is Report
                    && items[0].text == "失敗"@ && reason.is_prefix_of(items[0].hover),
            }
        }),
{
    match review {
        Some(AiModel::Done(record)) => {
            let day = first_chars(record.completed_at, 10);
            let a = "ターミナルでこのレビューの会話を再開（実行日: "@;
            let b = "）"@;
            assert(cell_items(review).last().hover == a + day + b);
            crate::text::law_occurs(day, a + day + b);
        },
        Some(AiModel::Failed(reason)) => {
            let hover = cell_items(review)[0].hover;
            assert(hover.subrange(0, reason.len() as int) =~= reason);
        },
        _ => {},
    }
}

/// The records are to be saved where one of the outcomes is a launch.
pub proof fn law_saved_on_launch(a: Seq<FinishedModel>, b: Seq<FinishedModel>, f: FinishedModel)
    ensures
        any_launched(a + b) <==> any_launched(a) || any_launched(b),
        any_launched(seq![f]) <==> f.outcome is Launched,
        !any_launched(Seq::empty()),
{
    let all = a + b;
    if any_launched(all) {
        let i = choose|i: int| 0 <= i < all.len() && (#[trigger] all[i]).outcome is Launched;
        if i < a.len() {
            assert(a[i].outcome is Launched);
        } else {
            assert(b[i - a.len()].outcome is Launched);
        }
    }
    if any_launched(a) {
        let i = choose|i: int| 0 <= i < a.len() && (#[trigger] a[i]).outcome is Launched;
        assert(all[i].outcome is Launched);
    }
    if any_launched(b) {
        let i = choose|i: int| 0 <= i < b.len() && (#[trigger] b[i]).outcome is Launched;
        assert(all[a.len() + i].outcome is Launched);
    }
    if f.outcome is Launched {
        assert(seq![f][0].outcome is Launched);
    }
}

} // verus!
