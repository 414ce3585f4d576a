//! Pull requests, their reviews, and how the viewer stands to them.
use vstd::prelude::*;

use crate::json::text_in;
use crate::number::{decimal, decimal_int};
use crate::text::{
    all_ascii, ascii_lowered, cat3, copy_texts, is_ascii_capital, lemma_ascii_lowered, lowercase,
    occurs, same, stands_at, texts, to_lower,
};

verus! {

/// A single review submission on a pull request.
#[derive(Clone, Debug, PartialEq, Eq)]
pub struct ReviewSummary {
    pub author: String,
    pub state: String,
    pub submitted_at: String,
    pub url: String,
}

/// The texts of a review.
#[verifier::ext_equal]
pub struct ReviewModel {
    pub author: Seq<char>,
    pub state: Seq<char>,
    pub submitted_at: Seq<char>,
    pub url: Seq<char>,
}

impl View for ReviewSummary {
    type V = ReviewModel;

    open spec fn view(&self) -> ReviewModel {
        ReviewModel {
            author: self.author@,
            state: self.state@,
            submitted_at: self.submitted_at@,
            url: self.url@,
        }
    }
}

impl ReviewSummary {
    /// A copy of the review.
    pub fn copy(&self) -> (r: ReviewSummary)
        ensures
            r@ == self@,
    {
        ReviewSummary {
            author: self.author.clone(),
            state: self.state.clone(),
            submitted_at: self.submitted_at.clone(),
            url: self.url.clone(),
        }
    }
}

/// The reviews of a list.
pub open spec fn review_models(list: Seq<ReviewSummary>) -> Seq<ReviewModel> {
    list.map_values(|r: ReviewSummary| r@)
}

/// The review in an optional one.
pub open spec fn review_in(r: Option<ReviewSummary>) -> Option<ReviewModel> {
    match r {
        Some(review) => Some(review@),
        None => None,
    }
}

/// A pull request enriched with the viewer's relationship to it.
#[derive(Clone, Debug)]
pub struct PullRequestSummary {
    pub repository: String,
    pub number: i64,
    pub title: String,
    pub url: String,
    pub author: String,
    pub state: String,
    pub is_draft: bool,
    pub review_decision: Option<String>,
    pub created_at: String,
    pub updated_at: String,
    pub requested_reviewers: Vec<String>,
    pub requested_for_user: bool,
    pub sources: Vec<String>,
    pub reviews: Vec<ReviewSummary>,
    pub my_latest_review: Option<ReviewSummary>,
    pub other_latest_reviews: Vec<ReviewSummary>,
}

/// What a pull request summary holds.
#[verifier::ext_equal]
pub struct PullRequestModel {
    pub repository: Seq<char>,
    pub number: int,
    pub title: Seq<char>,
    pub url: Seq<char>,
    pub author: Seq<char>,
    pub state: Seq<char>,
    pub is_draft: bool,
    pub review_decision: Option<Seq<char>>,
    pub created_at: Seq<char>,
    pub updated_at: Seq<char>,
    pub requested_reviewers: Seq<Seq<char>>,
    pub requested_for_user: bool,
    pub sources: Seq<Seq<char>>,
    pub reviews: Seq<ReviewModel>,
    pub my_latest_review: Option<ReviewModel>,
    pub other_latest_reviews: Seq<ReviewModel>,
}

impl View for PullRequestSummary {
    type V = PullRequestModel;

    open spec fn view(&self) -> PullRequestModel {
        PullRequestModel {
            repository: self.repository@,
            number: self.number as int,
            title: self.title@,
            url: self.url@,
            author: self.author@,
            state: self.state@,
            is_draft: self.is_draft,
            review_decision: text_in(self.review_decision),
            created_at: self.created_at@,
            updated_at: self.updated_at@,
            requested_reviewers: texts(self.requested_reviewers@),
            requested_for_user: self.requested_for_user,
            sources: texts(self.sources@),
            reviews: review_models(self.reviews@),
            my_latest_review: review_in(self.my_latest_review),
            other_latest_reviews: review_models(self.other_latest_reviews@),
        }
    }
}

/// The pull requests of a list.
pub open spec fn pr_models(list: Seq<PullRequestSummary>) -> Seq<PullRequestModel> {
    list.map_values(|p: PullRequestSummary| p@)
}

/// The viewer's actionable relationship to a PR.
#[derive(Clone, Copy, PartialEq, Eq, Structural, Debug)]
pub enum ReviewStatus {
    /// Requested, and nobody has reviewed yet or the viewer is asked again after a
    /// review.
    RequestedUntouched,
    /// Requested, the viewer hasn't reviewed but someone else has.
    RequestedOthersReviewed,
    /// The viewer has reviewed it and is not asked again.
    Reviewed,
    /// Anything else (e.g. seen but not requested and not reviewed).
    Other,
}

impl ReviewStatus {
    /// The text of the status column.
    pub open spec fn label_text(self) -> Seq<char> {
        match self {
            ReviewStatus::RequestedUntouched => "要レビュー"@,
            ReviewStatus::RequestedOthersReviewed => "要レビュー(他者済)"@,
            ReviewStatus::Reviewed => "レビュー済"@,
            ReviewStatus::Other => "—"@,
        }
    }

    /// The sentence of the tooltip.
    pub open spec fn description_text(self) -> Seq<char> {
        match self {
            ReviewStatus::RequestedUntouched => "リクエストがあるが誰もレビューしていない"@,
            ReviewStatus::RequestedOthersReviewed =>
                "リクエストがあり自分はレビューしていないが、誰かがレビューした"@,
            ReviewStatus::Reviewed => "リクエストがあり自分がレビューした（またはレビュー済み）"@,
            ReviewStatus::Other => "その他"@,
        }
    }

    /// Short label for the status column.
    pub fn label(self) -> (r: &'static str)
        ensures
            r@ == self.label_text(),
    {
        match self {
            ReviewStatus::RequestedUntouched => "要レビュー",
            ReviewStatus::RequestedOthersReviewed => "要レビュー(他者済)",
            ReviewStatus::Reviewed => "レビュー済",
            ReviewStatus::Other => "—",
        }
    }

    /// Full sentence used for tooltips.
    pub fn description(self) -> (r: &'static str)
        ensures
            r@ == match self {
                ReviewStatus::RequestedUntouched => "リクエストがあるが誰もレビューしていない"@,
                ReviewStatus::RequestedOthersReviewed =>
                    "リクエストがあり自分はレビューしていないが、誰かがレビューした"@,
                ReviewStatus::Reviewed =>
                    "リクエストがあり自分がレビューした（またはレビュー済み）"@,
                ReviewStatus::Other => "その他"@,
            },
            r@ == self.description_text(),
    {
        match self {
            ReviewStatus::RequestedUntouched => "リクエストがあるが誰もレビューしていない",
            ReviewStatus::RequestedOthersReviewed => {
                "リクエストがあり自分はレビューしていないが、誰かがレビューした"
            },
            ReviewStatus::Reviewed => "リクエストがあり自分がレビューした（またはレビュー済み）",
            ReviewStatus::Other => "その他",
        }
    }
}

impl PullRequestModel {
    /// Where the viewer stands. A standing request comes first: it waits where nobody
    /// has reviewed or the viewer is asked again after a review, and is taken up by
    /// others where only they have reviewed.
    pub open spec fn status(self) -> ReviewStatus {
        if self.requested_for_user {
            if self.my_latest_review is Some || self.other_latest_reviews.len() == 0 {
                ReviewStatus::RequestedUntouched
            } else {
                ReviewStatus::RequestedOthersReviewed
            }
        } else if self.my_latest_review is Some {
            ReviewStatus::Reviewed
        } else {
            ReviewStatus::Other
        }
    }

    /// Whether the viewer reviewed, was asked to, both or neither.
    pub open spec fn self_status(self) -> Seq<char> {
        match (self.my_latest_review is Some, self.requested_for_user) {
            (true, true) => "reviewed+requested"@,
            (true, false) => "reviewed"@,
            (false, true) => "requested"@,
            (false, false) => "seen"@,
        }
    }

    /// `owner/repo#number`.
    pub open spec fn key(self) -> Seq<char> {
        self.repository + "#"@ + decimal_int(self.number)
    }
}

impl PullRequestSummary {
    /// Classify the viewer's relationship to this PR. A standing request takes
    /// precedence: it waits for the viewer where nobody has reviewed or where it was
    /// made again after the viewer's review; otherwise someone else has reviewed.
    /// Without a request the viewer has reviewed or not.
    pub fn review_status(&self) -> (r: ReviewStatus)
        ensures
            r == self@.status(),
    {
        if self.requested_for_user {
            if self.my_latest_review.is_some() || self.other_latest_reviews.len() == 0 {
                ReviewStatus::RequestedUntouched
            } else {
                ReviewStatus::RequestedOthersReviewed
            }
        } else if self.my_latest_review.is_some() {
            ReviewStatus::Reviewed
        } else {
            ReviewStatus::Other
        }
    }

    /// Whether the viewer reviewed this PR, was asked to, both (`reviewed+requested`)
    /// or neither (`seen`).
    pub fn self_status(&self) -> (r: &'static str)
        ensures
            r@ == self@.self_status(),
    {
        match (self.my_latest_review.is_some(), self.requested_for_user) {
            (true, true) => "reviewed+requested",
            (true, false) => "reviewed",
            (false, true) => "requested",
            (false, false) => "seen",
        }
    }

    /// `owner/repo#number`, used as a stable display/key string.
    pub fn pr_key(&self) -> (r: String)
        ensures
            r@ == self@.key(),
    {
        cat3(self.repository.as_str(), "#", decimal(self.number).as_str())
    }

    /// A copy of the summary.
    pub fn copy(&self) -> (r: PullRequestSummary)
        ensures
            r@ == self@,
    {
        PullRequestSummary {
            repository: self.repository.clone(),
            number: self.number,
            title: self.title.clone(),
            url: self.url.clone(),
            author: self.author.clone(),
            state: self.state.clone(),
            is_draft: self.is_draft,
            review_decision: copy_text(&self.review_decision),
            created_at: self.created_at.clone(),
            updated_at: self.updated_at.clone(),
            requested_reviewers: copy_texts(&self.requested_reviewers),
            requested_for_user: self.requested_for_user,
            sources: copy_texts(&self.sources),
            reviews: copy_reviews(&self.reviews),
            my_latest_review: match &self.my_latest_review {
                Some(review) => Some(review.copy()),
                None => None,
            },
            other_latest_reviews: copy_reviews(&self.other_latest_reviews),
        }
    }
}

/// A copy of an optional text.
pub fn copy_text(t: &Option<String>) -> (r: Option<String>)
    ensures
        text_in(r) == text_in(*t),
{
    match t {
        Some(s) => Some(s.clone()),
        None => None,
    }
}

/// A copy of a list of reviews.
pub fn copy_reviews(list: &Vec<ReviewSummary>) -> (r: Vec<ReviewSummary>)
    ensures
        review_models(r@) == review_models(list@),
{
    let mut out: Vec<ReviewSummary> = Vec::new();
    for i in 0..list.len()
        invariant
            out@.len() == i,
            forall|j: int| 0 <= j < i ==> (#[trigger] out@[j])@ == list@[j]@,
    {
        out.push(list[i].copy());
    }
    assert(review_models(out@) =~= review_models(list@));
    out
}

/// The short form of a review state.
pub open spec fn short_form(state: Seq<char>) -> Seq<char> {
    if state == "APPROVED"@ {
        "approved"@
    } else if state == "CHANGES_REQUESTED"@ {
        "changes"@
    } else if state == "COMMENTED"@ {
        "comment"@
    } else if state == "DISMISSED"@ {
        "dismissed"@
    } else if state == "PENDING"@ {
        "pending"@
    } else {
        lowercase(state)
    }
}

/// The short form of a review state in ASCII.
pub open spec fn ascii_short_form(state: Seq<char>) -> Seq<char> {
    if is_known_state(state) {
        short_form(state)
    } else {
        ascii_lowered(state)
    }
}

/// Whether a review state is one with a short form of its own.
pub open spec fn is_known_state(state: Seq<char>) -> bool {
    ||| state == "APPROVED"@
    ||| state == "CHANGES_REQUESTED"@
    ||| state == "COMMENTED"@
    ||| state == "DISMISSED"@
    ||| state == "PENDING"@
}

/// Whether a text holds none of the letters `A` to `Z`.
pub open spec fn has_no_capital(s: Seq<char>) -> bool {
    forall|i: int| 0 <= i < s.len() ==> !is_ascii_capital(#[trigger] s[i])
}

proof fn lemma_short_forms_small(state: Seq<char>)
    ensures
        is_known_state(state) ==> has_no_capital(short_form(state)),
        has_no_capital(ascii_lowered(state)),
{
    reveal_strlit("approved");
    reveal_strlit("changes");
    reveal_strlit("comment");
    reveal_strlit("dismissed");
    reveal_strlit("pending");
    lemma_ascii_lowered(state);
}

/// Short, lower-case label for a GitHub review state.
pub fn short_state(state: &str) -> (r: String)
    ensures
        r@ == short_form(state@),
        all_ascii(state@) ==> r@ == ascii_short_form(state@) && has_no_capital(r@),
{
    proof {
        lemma_short_forms_small(state@);
    }
    if same(state, "APPROVED") {
        "approved".to_owned()
    } else if same(state, "CHANGES_REQUESTED") {
        "changes".to_owned()
    } else if same(state, "COMMENTED") {
        "comment".to_owned()
    } else if same(state, "DISMISSED") {
        "dismissed".to_owned()
    } else if same(state, "PENDING") {
        "pending".to_owned()
    } else {
        to_lower(state)
    }
}

/// The three states that a pull request is shown in, and the rest: waiting when
/// asked and nobody has reviewed or asked again after a review; to be done when
/// asked, not reviewed, and someone else has; finished when reviewed and not asked
/// again.
pub proof fn law_status_classes(p: PullRequestModel)
    ensures
        p.status() == ReviewStatus::RequestedUntouched <==> p.requested_for_user && (
        p.my_latest_review is Some || p.other_latest_reviews.len() == 0),
        p.status() == ReviewStatus::RequestedOthersReviewed <==> p.requested_for_user
            && p.my_latest_review is None && p.other_latest_reviews.len() > 0,
        p.status() == ReviewStatus::Reviewed <==> p.my_latest_review is Some
            && !p.requested_for_user,
        p.status() == ReviewStatus::Other <==> p.my_latest_review is None && !p.requested_for_user,
{
}

/// Both classifications agree: finished ones are those that are reviewed and not
/// requested, the request statuses are those that are requested, and those that
/// are requested again after a review wait.
pub proof fn law_self_status_agrees(p: PullRequestModel)
    ensures
        p.status() == ReviewStatus::Reviewed <==> p.self_status() == "reviewed"@,
        p.status() == ReviewStatus::Other <==> p.self_status() == "seen"@,
        (p.status() == ReviewStatus::RequestedUntouched || p.status()
            == ReviewStatus::RequestedOthersReviewed) <==> p.self_status() == "requested"@
            || p.self_status() == "reviewed+requested"@,
        p.self_status() == "reviewed+requested"@ ==> p.status()
            == ReviewStatus::RequestedUntouched,
{
    reveal_strlit("reviewed+requested");
    reveal_strlit("reviewed");
    reveal_strlit("requested");
    reveal_strlit("seen");
    assert("reviewed"@.len() == 8);
    assert("reviewed+requested"@.len() == 18);
    assert("requested"@.len() == 9);
    assert("seen"@.len() == 4);
}

/// What the status column says of a pull request: that a review is wanted where one
/// is asked of the viewer, with the note that others have reviewed exactly where the
/// viewer has not and someone else's review counts; that it is reviewed where the
/// viewer has and is not asked again; and a dash where neither holds.
pub proof fn law_status_label(p: PullRequestModel)
    ensures
        ({
            let text = p.status().label_text();
            let wanted = "要レビュー"@;
            let others = "他者済"@;
            &&& p.requested_for_user <==> wanted.is_prefix_of(text)
            &&& p.requested_for_user && p.my_latest_review is None ==> (occurs(others, text)
                <==> p.other_latest_reviews.len() > 0)
            &&& p.requested_for_user && p.my_latest_review is Some ==> text == wanted
            &&& p.requested_for_user && p.other_latest_reviews.len() == 0 ==> text == wanted
            &&& occurs(others, text) ==> p.requested_for_user && text == wanted + "("@ + others + ")"@
            &&& !p.requested_for_user && p.my_latest_review is Some ==> text == "レビュー済"@
            &&& !p.requested_for_user && p.my_latest_review is None ==> text == "—"@
        }),
{
    reveal_strlit("要レビュー");
    reveal_strlit("要レビュー(他者済)");
    reveal_strlit("レビュー済");
    reveal_strlit("—");
    reveal_strlit("他者済");
    reveal_strlit("(");
    reveal_strlit(")");
    let text = p.status().label_text();
    let wanted = "要レビュー"@;
    let others = "他者済"@;
    let both = "要レビュー(他者済)"@;
    assert(both =~= wanted + "("@ + others + ")"@);
    assert(both.subrange(0, 5) =~= wanted);
    assert(wanted.subrange(0, 5) =~= wanted);
    assert(both.subrange(6, 9) =~= others);
    assert(stands_at(others, both, 6));
    assert("レビュー済"@[0] != wanted[0]);
    if wanted.is_prefix_of("レビュー済"@) {
        assert("レビュー済"@.subrange(0, 5)[0] == wanted[0]);
    }
    assert("—"@.len() == 1);
    lemma_lacks(others, wanted);
    lemma_lacks(others, "レビュー済"@);
    lemma_lacks(others, "—"@);
}

/// A text does not occur in one that lacks its first character.
proof fn lemma_lacks(needle: Seq<char>, s: Seq<char>)
    requires
        needle.len() > 0,
        !s.contains(needle[0]),
    ensures
        !occurs(needle, s),
{
    if occurs(needle, s) {
        let at = choose|at: int| stands_at(needle, s, at);
        assert(s.subrange(at, at + needle.len())[0] == s[at]);
        assert(s.contains(s[at]));
    }
}

/// The short form of a known review state is the beginning of the state in small
/// letters, and all of it for those that are one word but a comment; no two known
/// states have the same.
pub proof fn law_short_forms(state: Seq<char>, other: Seq<char>)
    ensures
        is_known_state(state) ==> short_form(state).len() > 0 && short_form(state).is_prefix_of(
            ascii_lowered(state),
        ),
        state == "APPROVED"@ || state == "DISMISSED"@ || state == "PENDING"@ ==> short_form(state)
            == ascii_lowered(state),
        state == "CHANGES_REQUESTED"@ ==> short_form(state).len() == "CHANGES"@.len(),
        state == "COMMENTED"@ ==> short_form(state).len() == "COMMENT"@.len(),
        is_known_state(state) && is_known_state(other) && short_form(state) == short_form(other)
            ==> state == other,
        !is_known_state(state) ==> short_form(state) == lowercase(state),
{
    reveal_strlit("APPROVED");
    reveal_strlit("CHANGES_REQUESTED");
    reveal_strlit("COMMENTED");
    reveal_strlit("DISMISSED");
    reveal_strlit("PENDING");
    reveal_strlit("approved");
    reveal_strlit("changes");
    reveal_strlit("comment");
    reveal_strlit("dismissed");
    reveal_strlit("pending");
    reveal_strlit("CHANGES");
    reveal_strlit("COMMENT");
    assert("approved"@.len() == 8 && "changes"@.len() == 7 && "comment"@.len() == 7
        && "dismissed"@.len() == 9 && "pending"@.len() == 7);
    assert("changes"@[1] != "comment"@[1]);
    assert("changes"@[0] != "pending"@[0] && "comment"@[0] != "pending"@[0]);
    assert("APPROVED"@.len() == 8 && "CHANGES_REQUESTED"@.len() == 17 && "COMMENTED"@.len() == 9
        && "DISMISSED"@.len() == 9 && "PENDING"@.len() == 7);
    assert("COMMENTED"@[0] != "DISMISSED"@[0]);
    assert(ascii_lowered("APPROVED"@) =~= "approved"@);
    assert(ascii_lowered("DISMISSED"@) =~= "dismissed"@);
    assert(ascii_lowered("PENDING"@) =~= "pending"@);
    assert(ascii_lowered("CHANGES_REQUESTED"@).subrange(0, 7) =~= "changes"@);
    assert(ascii_lowered("COMMENTED"@).subrange(0, 7) =~= "comment"@);
    let small = ascii_lowered(state);
    assert(small.subrange(0, small.len() as int) =~= small);
}

/// A pull request is called by its repository, a number sign and its number.
pub proof fn law_key(p: PullRequestModel)
    ensures
        p.repository.is_prefix_of(p.key()),
        p.key().len() > p.repository.len(),
        p.key()[p.repository.len() as int] == '#',
        p.key().skip(p.repository.len() as int + 1) == decimal_int(p.number),
{
    reveal_strlit("#");
    assert(p.key().subrange(0, p.repository.len() as int) =~= p.repository);
    assert(p.key().skip(p.repository.len() as int + 1) =~= decimal_int(p.number));
}

/// The tooltip says that there is a request and whether someone else has reviewed,
/// where a review is asked of the user who has given none; that the user has reviewed,
/// where that is so and none is asked again; and else that neither holds.
pub proof fn law_status_tooltip(p: PullRequestModel)
    ensures
        ({
            let text = p.status().description_text();
            &&& p.requested_for_user && p.my_latest_review is None && p.other_latest_reviews.len()
                == 0 ==> text == "リクエストがあるが"@ + "誰もレビューしていない"@
            &&& p.requested_for_user && p.my_latest_review is None && p.other_latest_reviews.len()
                > 0 ==> text == "リクエストがあり自分はレビューしていないが、"@
                + "誰かがレビューした"@
            &&& !p.requested_for_user && p.my_latest_review is Some ==> text == "リクエストがあり"@
                + "自分がレビューした（またはレビュー済み）"@
            &&& !p.requested_for_user && p.my_latest_review is None ==> text == "その他"@
        }),
{
    reveal_strlit("リクエストがあるが");
    reveal_strlit("誰もレビューしていない");
    reveal_strlit("リクエストがあるが誰もレビューしていない");
    reveal_strlit("リクエストがあり自分はレビューしていないが、");
    reveal_strlit("誰かがレビューした");
    reveal_strlit("リクエストがあり自分はレビューしていないが、誰かがレビューした");
    reveal_strlit("リクエストがあり");
    reveal_strlit("自分がレビューした（またはレビュー済み）");
    reveal_strlit("リクエストがあり自分がレビューした（またはレビュー済み）");
    assert("リクエストがあるが誰もレビューしていない"@ =~= "リクエストがあるが"@
        + "誰もレビューしていない"@);
    assert("リクエストがあり自分はレビューしていないが、誰かがレビューした"@
        =~= "リクエストがあり自分はレビューしていないが、"@ + "誰かがレビューした"@);
    assert("リクエストがあり自分がレビューした（またはレビュー済み）"@ =~= "リクエストがあり"@
        + "自分がレビューした（またはレビュー済み）"@);
}

} // verus!
