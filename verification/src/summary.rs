//! Search results turned into pull request summaries.
use vstd::prelude::*;

use crate::json::{values, Json, JsonModel};
use crate::lists::{goes_up, lemma_filter_map_places};
use crate::model::{review_models, PullRequestModel, PullRequestSummary, ReviewModel, ReviewSummary};
use crate::order::{before, is_before};
use crate::text::{cat, copy_texts, has_text, same, texts};
use crate::textmap::{in_order, lists, TextMap};

verus! {

/// How an account asked for a review is written: `@login` for a user, `@org/slug` or
/// `@slug` for a team; nothing for any other kind.
pub open spec fn reviewer_label(node: JsonModel) -> Option<Seq<char>> {
    let reviewer = node.at("requestedReviewer"@);
    let kind = reviewer.at("__typename"@).text();
    if kind == Some("User"@) {
        match reviewer.at("login"@).text() {
            Some(login) => Some("@"@ + login),
            None => None,
        }
    } else if kind == Some("Team"@) {
        match (reviewer.at("slug"@).text(), reviewer.at("organization"@).at("login"@).text()) {
            (Some(slug), Some(org)) => Some("@"@ + org + "/"@ + slug),
            (Some(slug), None) => Some("@"@ + slug),
            (None, _) => None,
        }
    } else {
        None
    }
}

/// How an account asked for a review is written.
pub fn format_requested_reviewer(node: &Json) -> (r: Option<String>)
    ensures
        crate::json::text_in(r) == reviewer_label(node@),
{
    proof {
        reveal_strlit("User");
        reveal_strlit("Team");
        assert("User"@[0] != "Team"@[0]);
    }
    let reviewer = match node.get("requestedReviewer") {
        Some(reviewer) => reviewer,
        None => {
            return None;
        },
    };
    let kind = match reviewer.text_at("__typename") {
        Some(kind) => kind,
        None => {
            return None;
        },
    };
    if same(kind.as_str(), "User") {
        match reviewer.text_at("login") {
            Some(login) => Some(cat("@", login.as_str())),
            None => None,
        }
    } else if same(kind.as_str(), "Team") {
        match reviewer.text_at("slug") {
            Some(slug) => match reviewer.text_within("organization", "login") {
                Some(org) => Some(
                    cat(cat(cat("@", org.as_str()).as_str(), "/").as_str(), slug.as_str()),
                ),
                None => Some(cat("@", slug.as_str())),
            },
            None => None,
        }
    } else {
        None
    }
}

/// The accounts asked for a review of a search result, in order.
pub open spec fn reviewer_labels(node: JsonModel) -> Seq<Seq<char>> {
    node.at("reviewRequests"@).at("nodes"@).items_or_none().filter_map(
        |n: JsonModel| reviewer_label(n),
    )
}

fn requested_reviewers(node: &Json) -> (r: Vec<String>)
    ensures
        texts(r@) == reviewer_labels(node@),
{
    let mut out: Vec<String> = Vec::new();
    let ghost f = |n: JsonModel| reviewer_label(n);
    if let Some(list) = node.items_within("reviewRequests", "nodes") {
        let ghost all = values(list@);
        for i in 0..list.len()
            invariant
                all == values(list@),
                f == (|n: JsonModel| reviewer_label(n)),
                texts(out@) == all.take(i as int).filter_map(f),
        {
            proof {
                all.lemma_filter_map_take_succ(f, i as int);
            }
            let ghost earlier = texts(out@);
            if let Some(name) = format_requested_reviewer(&list[i]) {
                out.push(name);
                assert(texts(out@) =~= earlier.push(name@));
            }
            assert(texts(out@) =~= all.take(i + 1).filter_map(f));
        }
        assert(all.take(all.len() as int) =~= all);
    } else {
        assert(texts(out@) =~= Seq::<JsonModel>::empty().filter_map(f));
    }
    out
}

/// The review that a node of the review list stands for: it needs an author, a
/// time and a state, none of them empty.
pub open spec fn review_of(node: JsonModel) -> Option<ReviewModel> {
    let author = node.at("author"@).at("login"@).text_or_empty();
    let submitted_at = node.at("submittedAt"@).text_or_empty();
    let state = node.at("state"@).text_or_empty();
    if author.len() == 0 || submitted_at.len() == 0 || state.len() == 0 {
        None
    } else {
        Some(
            ReviewModel {
                author,
                state,
                submitted_at,
                url: node.at("url"@).text_or_empty(),
            },
        )
    }
}

/// The reviews of a search result, in order.
pub open spec fn reviews_of(node: JsonModel) -> Seq<ReviewModel> {
    node.at("reviews"@).at("nodes"@).items_or_none().filter_map(|n: JsonModel| review_of(n))
}

/// The reviews of a search result. Entries without an author, a time or a state
/// are left out.
pub fn parse_reviews(node: &Json) -> (r: Vec<ReviewSummary>)
    ensures
        review_models(r@) == reviews_of(node@),
{
    let mut out: Vec<ReviewSummary> = Vec::new();
    let ghost f = |n: JsonModel| review_of(n);
    if let Some(list) = node.items_within("reviews", "nodes") {
        let ghost all = values(list@);
        for i in 0..list.len()
            invariant
                all == values(list@),
                f == (|n: JsonModel| review_of(n)),
                review_models(out@) == all.take(i as int).filter_map(f),
        {
            proof {
                all.lemma_filter_map_take_succ(f, i as int);
            }
            let ghost earlier = review_models(out@);
            let author = list[i].text_or_empty_within("author", "login");
            let submitted_at = list[i].text_or_empty_at("submittedAt");
            let state = list[i].text_or_empty_at("state");
            if !(author.as_str().is_empty() || submitted_at.as_str().is_empty()
                || state.as_str().is_empty()) {
                let url = list[i].text_or_empty_at("url");
                let review = ReviewSummary { author, state, submitted_at, url };
                out.push(review);
                assert(review_models(out@) =~= earlier.push(review@));
            }
            assert(review_models(out@) =~= all.take(i + 1).filter_map(f));
        }
        assert(all.take(all.len() as int) =~= all);
    } else {
        assert(review_models(out@) =~= Seq::<JsonModel>::empty().filter_map(f));
    }
    out
}

/// The latest review of an author: of those with the latest time, the first.
pub open spec fn latest_of(reviews: Seq<ReviewModel>, author: Seq<char>) -> Option<ReviewModel>
    decreases reviews.len(),
{
    if reviews.len() == 0 {
        None
    } else {
        let earlier = latest_of(reviews.drop_last(), author);
        let review = reviews.last();
        if review.author == author && match earlier {
            Some(current) => before(current.submitted_at, review.submitted_at),
            None => true,
        } {
            Some(review)
        } else {
            earlier
        }
    }
}

/// The latest reviews of all authors.
pub open spec fn latest_by_author(reviews: Seq<ReviewModel>) -> Map<Seq<char>, ReviewModel> {
    Map::new(
        |a: Seq<char>| latest_of(reviews, a) is Some,
        |a: Seq<char>| latest_of(reviews, a)->0,
    )
}

/// Keep only the latest review per author. ISO-8601 UTC strings compare
/// correctly lexicographically, so no datetime parsing is needed here.
pub fn latest_reviews_by_author(reviews: &Vec<ReviewSummary>) -> (r: TextMap<ReviewSummary>)
    ensures
        r@ == latest_by_author(review_models(reviews@)),
{
    let mut latest: TextMap<ReviewSummary> = TextMap::new();
    let ghost all = review_models(reviews@);
    assert(latest@ =~= latest_by_author(all.take(0)));
    for i in 0..reviews.len()
        invariant
            all == review_models(reviews@),
            latest@ == latest_by_author(all.take(i as int)),
    {
        let review = &reviews[i];
        let ghost was = latest@;
        proof {
            assert(all.take(i + 1).drop_last() =~= all.take(i as int));
            assert(all.take(i + 1).last() == review@);
        }
        let replace: bool = match latest.get(review.author.as_str()) {
            Some(current) => is_before(
                current.submitted_at.as_str(),
                review.submitted_at.as_str(),
            ),
            None => true,
        };
        if replace {
            latest.insert(review.author.clone(), review.copy());
        }
        assert(latest@ =~= latest_by_author(all.take(i + 1)));
    }
    assert(all.take(all.len() as int) =~= all);
    latest
}

/// The latest review of an author is one of the author's reviews; none of them is
/// later, and those before it in the list are earlier in time. An author without
/// reviews has no latest one.
pub proof fn law_latest_is_latest(reviews: Seq<ReviewModel>, author: Seq<char>)
    ensures
        match latest_of(reviews, author) {
            Some(latest) => exists|at: int|
                {
                    &&& 0 <= at < reviews.len()
                    &&& #[trigger] reviews[at] == latest
                    &&& latest.author == author
                    &&& forall|j: int|
                        0 <= j < reviews.len() && (#[trigger] reviews[j]).author == author
                            ==> !before(latest.submitted_at, reviews[j].submitted_at)
                    &&& forall|j: int|
                        0 <= j < at && (#[trigger] reviews[j]).author == author ==> before(
                            reviews[j].submitted_at,
                            latest.submitted_at,
                        )
                },
            None => forall|j: int|
                0 <= j < reviews.len() ==> (#[trigger] reviews[j]).author != author,
        },
    decreases reviews.len(),
{
    if reviews.len() > 0 {
        let shorter = reviews.drop_last();
        let last = reviews.last();
        law_latest_is_latest(shorter, author);
        assert forall|j: int| 0 <= j < shorter.len() implies reviews[j] == #[trigger] shorter[j] by {}
        let earlier = latest_of(shorter, author);
        let now = latest_of(reviews, author);
        if now is Some {
            if last.author == author && match earlier {
                Some(current) => before(current.submitted_at, last.submitted_at),
                None => true,
            } {
                let at = reviews.len() - 1;
                assert(reviews[at] == last);
                crate::order::lemma_irreflexive(last.submitted_at);
                assert forall|j: int|
                    0 <= j < reviews.len() - 1 && (#[trigger] reviews[j]).author
                        == author implies before(reviews[j].submitted_at, last.submitted_at) by {
                    assert(shorter[j] == reviews[j]);
                    let t = reviews[j].submitted_at;
                    if earlier is Some {
                        let c = earlier->0.submitted_at;
                        crate::order::lemma_total(t, c);
                        if before(t, c) {
                            crate::order::lemma_transitive(t, c, last.submitted_at);
                        }
                    }
                }
                assert forall|j: int|
                    0 <= j < reviews.len() && (#[trigger] reviews[j]).author
                        == author implies !before(last.submitted_at, reviews[j].submitted_at) by {
                    if j < reviews.len() - 1 {
                        crate::order::lemma_asymmetric(
                            reviews[j].submitted_at,
                            last.submitted_at,
                        );
                    }
                }
            } else {
                let at = choose|at: int|
                    {
                        &&& 0 <= at < shorter.len()
                        &&& #[trigger] shorter[at] == earlier->0
                        &&& earlier->0.author == author
                        &&& forall|j: int|
                            0 <= j < shorter.len() && (#[trigger] shorter[j]).author == author
                                ==> !before(earlier->0.submitted_at, shorter[j].submitted_at)
                        &&& forall|j: int|
                            0 <= j < at && (#[trigger] shorter[j]).author == author ==> before(
                                shorter[j].submitted_at,
                                earlier->0.submitted_at,
                            )
                    };
                assert(reviews[at] == earlier->0);
                assert forall|j: int|
                    0 <= j < reviews.len() && (#[trigger] reviews[j]).author
                        == author implies !before(
                    earlier->0.submitted_at,
                    reviews[j].submitted_at,
                ) by {
                    if j < reviews.len() - 1 {
                        assert(shorter[j] == reviews[j]);
                    }
                }
                assert forall|j: int|
                    0 <= j < at && (#[trigger] reviews[j]).author == author implies before(
                    reviews[j].submitted_at,
                    earlier->0.submitted_at,
                ) by {
                    assert(shorter[j] == reviews[j]);
                }
            }
        } else {
            assert forall|j: int| 0 <= j < reviews.len() implies (#[trigger] reviews[j]).author
                != author by {
                if j < reviews.len() - 1 {
                    assert(shorter[j] == reviews[j]);
                }
            }
        }
    }
}

/// The reviews that count: those of authors who are not ignored.
pub open spec fn counted(reviews: Seq<ReviewModel>, ignored: Seq<Seq<char>>) -> Seq<ReviewModel> {
    reviews.filter(|r: ReviewModel| !ignored.contains(r.author))
}

/// The latest reviews of everyone but `login`, in the order of their authors.
pub open spec fn others(latest: Map<Seq<char>, ReviewModel>, login: Seq<char>) -> Seq<ReviewModel> {
    in_order(latest.dom().remove(login)).map_values(|a: Seq<char>| latest[a])
}

/// What a search result is for the viewer `login`, with the reviews of the
/// `ignored` accounts left out of the latest ones.
pub open spec fn summary_of(
    node: JsonModel,
    login: Seq<char>,
    sources: Seq<Seq<char>>,
    ignored: Seq<Seq<char>>,
) -> PullRequestModel {
    let reviews = reviews_of(node);
    let latest = latest_by_author(counted(reviews, ignored));
    let requested = reviewer_labels(node);
    PullRequestModel {
        repository: node.at("repository"@).at("nameWithOwner"@).text_or_empty(),
        number: node.at("number"@).int_or_zero(),
        title: node.at("title"@).text_or_empty(),
        url: node.at("url"@).text_or_empty(),
        author: node.at("author"@).at("login"@).text_or_empty(),
        state: node.at("state"@).text_or_empty(),
        is_draft: node.at("isDraft"@).is_true(),
        review_decision: node.at("reviewDecision"@).text(),
        created_at: node.at("createdAt"@).text_or_empty(),
        updated_at: node.at("updatedAt"@).text_or_empty(),
        requested_reviewers: requested,
        requested_for_user: sources.contains("requested"@) || requested.contains("@"@ + login),
        sources,
        reviews,
        my_latest_review: if latest.contains_key(login) {
            Some(latest[login])
        } else {
            None
        },
        other_latest_reviews: others(latest, login),
    }
}

fn count_reviews(reviews: &Vec<ReviewSummary>, ignored: &Vec<String>) -> (r: Vec<ReviewSummary>)
    ensures
        review_models(r@) == counted(review_models(reviews@), texts(ignored@)),
{
    let mut out: Vec<ReviewSummary> = Vec::new();
    let ghost all = review_models(reviews@);
    let ghost keep = |r: ReviewModel| !texts(ignored@).contains(r.author);
    reveal(Seq::filter);
    for i in 0..reviews.len()
        invariant
            all == review_models(reviews@),
            keep == (|r: ReviewModel| !texts(ignored@).contains(r.author)),
            review_models(out@) == all.take(i as int).filter(keep),
    {
        reveal(Seq::filter);
        let ghost earlier = review_models(out@);
        proof {
            assert(all.take(i + 1).drop_last() =~= all.take(i as int));
            assert(all.take(i + 1).last() == reviews@[i as int]@);
        }
        if !has_text(ignored, reviews[i].author.as_str()) {
            out.push(reviews[i].copy());
            assert(review_models(out@) =~= earlier.push(reviews@[i as int]@));
        }
    }
    assert(all.take(all.len() as int) =~= all);
    out
}

fn in_author_order(latest: &TextMap<ReviewSummary>) -> (r: Vec<ReviewSummary>)
    ensures
        review_models(r@) == in_order(latest@.dom()).map_values(|a: Seq<char>| latest@[a]),
        lists(in_order(latest@.dom()), latest@.dom()),
{
    let mut out: Vec<ReviewSummary> = Vec::new();
    let n = latest.len();
    for i in 0..n
        invariant
            n == latest.keys().len(),
            out@.len() == i,
            forall|j: int|
                0 <= j < i ==> (#[trigger] out@[j])@ == latest@[latest.keys()[j]],
    {
        out.push(latest.value_at(i).copy());
    }
    assert(review_models(out@) =~= in_order(latest@.dom()).map_values(
        |a: Seq<char>| latest@[a],
    ));
    out
}

/// Turn a search result into a summary for the given viewer, not counting the
/// reviews of the ignored accounts.
pub fn summarize_ignoring(
    node: &Json,
    login: &str,
    sources: &Vec<String>,
    ignored: &Vec<String>,
) -> (r: PullRequestSummary)
    ensures
        r@ == summary_of(node@, login@, texts(sources@), texts(ignored@)),
{
    let requested_reviewers = requested_reviewers(node);
    let reviews = parse_reviews(node);
    let mut latest = latest_reviews_by_author(&count_reviews(&reviews, ignored));
    let ghost whole = latest@;
    let my_latest_review = match latest.get(login) {
        Some(review) => Some(review.copy()),
        None => None,
    };
    let _ = latest.remove(login);
    let other_latest_reviews = in_author_order(&latest);
    proof {
        assert(latest@.dom() =~= whole.dom().remove(login@));
        let list = in_order(latest@.dom());
        assert forall|i: int| 0 <= i < list.len() implies whole[#[trigger] list[i]]
            == latest@[list[i]] by {
            assert(list.contains(list[i]));
            assert(latest@.dom().contains(list[i]));
        }
        assert(review_models(other_latest_reviews@) =~= others(whole, login@));
    }
    let me = cat("@", login);
    let requested_for_user = has_text(sources, "requested") || has_text(
        &requested_reviewers,
        me.as_str(),
    );
    PullRequestSummary {
        repository: node.text_or_empty_within("repository", "nameWithOwner"),
        number: node.int_at("number"),
        title: node.text_or_empty_at("title"),
        url: node.text_or_empty_at("url"),
        author: node.text_or_empty_within("author", "login"),
        state: node.text_or_empty_at("state"),
        is_draft: node.true_at("isDraft"),
        review_decision: node.text_at("reviewDecision"),
        created_at: node.text_or_empty_at("createdAt"),
        updated_at: node.text_or_empty_at("updatedAt"),
        requested_reviewers,
        requested_for_user,
        sources: copy_texts(sources),
        reviews,
        my_latest_review,
        other_latest_reviews,
    }
}

/// Turn a raw search node into a `PullRequestSummary` for the given viewer.
pub fn summarize_pull_request(node: &Json, login: &str, sources: &Vec<String>) -> (r:
    PullRequestSummary)
    ensures
        r@ == summary_of(node@, login@, texts(sources@), Seq::empty()),
{
    let nobody: Vec<String> = Vec::new();
    assert(texts(nobody@) =~= Seq::empty());
    summarize_ignoring(node, login, sources, &nobody)
}

proof fn lemma_authors_finite(reviews: Seq<ReviewModel>)
    ensures
        latest_by_author(reviews).dom().finite(),
{
    let authors = reviews.map_values(|r: ReviewModel| r.author);
    assert forall|a: Seq<char>| latest_by_author(reviews).dom().contains(a) implies #[trigger] authors.to_set().contains(
        a,
    ) by {
        law_latest_is_latest(reviews, a);
        let at = choose|at: int|
            0 <= at < reviews.len() && #[trigger] reviews[at] == latest_of(reviews, a)->0;
        assert(authors[at] == a);
        assert(authors.contains(a));
    }
    vstd::seq_lib::seq_to_set_is_finite(authors);
    vstd::set_lib::lemma_set_subset_finite(
        authors.to_set(),
        latest_by_author(reviews).dom(),
    );
}

/// The others of a summary are in the order of their authors, each author once,
/// without the viewer and the ignored accounts; and they are complete: the latest
/// review of everyone else who reviewed and is not ignored is among them.
pub proof fn law_others(
    node: JsonModel,
    login: Seq<char>,
    sources: Seq<Seq<char>>,
    ignored: Seq<Seq<char>>,
)
    ensures
        ({
            let p = summary_of(node, login, sources, ignored);
            let list = p.other_latest_reviews;
            let kept = counted(p.reviews, ignored);
            &&& forall|i: int, j: int|
                0 <= i < j < list.len() ==> before(
                    (#[trigger] list[i]).author,
                    (#[trigger] list[j]).author,
                )
            &&& forall|i: int|
                0 <= i < list.len() ==> (#[trigger] list[i]).author != login && !ignored.contains(
                    list[i].author,
                )
            &&& forall|a: Seq<char>|
                a != login && #[trigger] latest_of(kept, a) is Some ==> list.contains(
                    latest_of(kept, a)->0,
                )
        }),
{
    let p = summary_of(node, login, sources, ignored);
    let list = p.other_latest_reviews;
    let kept = counted(p.reviews, ignored);
    let latest = latest_by_author(kept);
    let names = in_order(latest.dom().remove(login));
    lemma_authors_finite(kept);
    crate::textmap::lemma_listable(latest.dom().remove(login));
    assert forall|i: int| 0 <= i < list.len() implies (#[trigger] list[i]).author == names[i]
        && list[i].author != login && !ignored.contains(list[i].author) by {
        let a = names[i];
        assert(names.contains(a));
        assert(latest.dom().remove(login).contains(a));
        assert(list[i] == latest[a]);
        law_latest_is_latest(kept, a);
        lemma_counted(p.reviews, ignored, a);
    }
    assert forall|i: int, j: int| 0 <= i < j < list.len() implies before(
        (#[trigger] list[i]).author,
        (#[trigger] list[j]).author,
    ) by {
        assert(before(names[i], names[j]));
    }
    assert forall|a: Seq<char>|
        a != login && #[trigger] latest_of(kept, a) is Some implies list.contains(
        latest_of(kept, a)->0,
    ) by {
        assert(latest.dom().remove(login).contains(a));
        let i = choose|i: int| 0 <= i < names.len() && names[i] == a;
        assert(list[i] == latest[a]);
    }
}

/// An account with a review that counts is not ignored.
proof fn lemma_counted(reviews: Seq<ReviewModel>, ignored: Seq<Seq<char>>, a: Seq<char>)
    ensures
        latest_of(counted(reviews, ignored), a) is Some ==> !ignored.contains(a),
{
    let kept = counted(reviews, ignored);
    if latest_of(kept, a) is Some {
        law_latest_is_latest(kept, a);
        let at = choose|at: int|
            0 <= at < kept.len() && #[trigger] kept[at] == latest_of(kept, a)->0;
        reviews.lemma_filter_pred(|r: ReviewModel| !ignored.contains(r.author), at);
    }
}

/// A viewer who is ignored, or never reviewed, has no review of their own; any other
/// viewer's is the latest that they submitted.
pub proof fn law_own_review(
    node: JsonModel,
    login: Seq<char>,
    sources: Seq<Seq<char>>,
    ignored: Seq<Seq<char>>,
)
    ensures
        ({
            let p = summary_of(node, login, sources, ignored);
            p.my_latest_review == if ignored.contains(login) {
                None
            } else {
                latest_of(p.reviews, login)
            }
        }),
{
    let p = summary_of(node, login, sources, ignored);
    lemma_counted(p.reviews, ignored, login);
    if !ignored.contains(login) {
        lemma_latest_of_counted(p.reviews, ignored, login);
    }
}

proof fn lemma_latest_of_counted(reviews: Seq<ReviewModel>, ignored: Seq<Seq<char>>, a: Seq<char>)
    requires
        !ignored.contains(a),
    ensures
        latest_of(counted(reviews, ignored), a) == latest_of(reviews, a),
    decreases reviews.len(),
{
    reveal(Seq::filter);
    if reviews.len() > 0 {
        let rest = reviews.drop_last();
        let last = reviews.last();
        lemma_latest_of_counted(rest, ignored, a);
        if !ignored.contains(last.author) {
            assert(counted(reviews, ignored) =~= counted(rest, ignored).push(last));
            assert(counted(reviews, ignored).drop_last() =~= counted(rest, ignored));
        }
    }
}

/// Whether `t` is the text that a value holds, or empty where it holds none.
pub open spec fn told_text(value: JsonModel, t: Seq<char>) -> bool {
    match value {
        JsonModel::Text(x) => t == x,
        _ => t.len() == 0,
    }
}

/// Whether a summary says of a pull request what the search result says of it.
pub open spec fn told_by(p: PullRequestModel, node: JsonModel) -> bool {
    &&& told_text(node.at("repository"@).at("nameWithOwner"@), p.repository)
    &&& told_text(node.at("title"@), p.title)
    &&& told_text(node.at("url"@), p.url)
    &&& told_text(node.at("author"@).at("login"@), p.author)
    &&& told_text(node.at("state"@), p.state)
    &&& told_text(node.at("createdAt"@), p.created_at)
    &&& told_text(node.at("updatedAt"@), p.updated_at)
    &&& p.is_draft <==> node.at("isDraft"@) == JsonModel::Bool(true)
    &&& match node.at("number"@) {
        JsonModel::Int(n) => p.number == n,
        _ => p.number == 0,
    }
    &&& match node.at("reviewDecision"@) {
        JsonModel::Text(t) => p.review_decision == Some(t),
        _ => p.review_decision is None,
    }
}

/// A summary says of the pull request what the search result says, each thing under
/// its own name and unchanged.
pub proof fn law_summary_tells(
    node: JsonModel,
    login: Seq<char>,
    sources: Seq<Seq<char>>,
    ignored: Seq<Seq<char>>,
)
    ensures
        told_by(summary_of(node, login, sources, ignored), node),
        summary_of(node, login, sources, ignored).sources == sources,
{
}

/// Whether an entry of the list of reviews has an author, a time and a state.
pub open spec fn is_complete(item: JsonModel) -> bool {
    &&& item.at("author"@).at("login"@) matches JsonModel::Text(author) && author.len() > 0
    &&& item.at("submittedAt"@) matches JsonModel::Text(time) && time.len() > 0
    &&& item.at("state"@) matches JsonModel::Text(state) && state.len() > 0
}

/// Whether a review is the one that an entry of the list of reviews tells of, with
/// nothing changed.
pub open spec fn tells_of(item: JsonModel, r: ReviewModel) -> bool {
    &&& is_complete(item)
    &&& item.at("author"@).at("login"@) == JsonModel::Text(r.author)
    &&& item.at("submittedAt"@) == JsonModel::Text(r.submitted_at)
    &&& item.at("state"@) == JsonModel::Text(r.state)
    &&& told_text(item.at("url"@), r.url)
}

/// The reviews of a summary are the complete entries of the list of reviews, in
/// order, with author, time, state and address unchanged.
pub proof fn law_reviews_read(
    node: JsonModel,
    login: Seq<char>,
    sources: Seq<Seq<char>>,
    ignored: Seq<Seq<char>>,
)
    ensures
        ({
            let reviews = summary_of(node, login, sources, ignored).reviews;
            match node.at("reviews"@).at("nodes"@) {
                JsonModel::Array(items) => exists|places: Seq<int>|
                    {
                        &&& #[trigger] goes_up(places)
                        &&& forall|k: int| #[trigger]
                            places.contains(k) <==> 0 <= k < items.len() && is_complete(items[k])
                        &&& reviews.len() == places.len()
                        &&& forall|i: int|
                            0 <= i < reviews.len() ==> tells_of(
                                items[places[i]],
                                #[trigger] reviews[i],
                            )
                    },
                _ => reviews.len() == 0,
            }
        }),
{
    let reviews = summary_of(node, login, sources, ignored).reviews;
    if let JsonModel::Array(items) = node.at("reviews"@).at("nodes"@) {
        let places = lemma_review_places(items);
        assert(goes_up(places));
        assert(reviews == reviews_in(items));
    } else {
        assert(reviews =~= Seq::empty());
    }
}

spec fn reviews_in(items: Seq<JsonModel>) -> Seq<ReviewModel> {
    items.filter_map(|n: JsonModel| review_of(n))
}

proof fn lemma_review_places(items: Seq<JsonModel>) -> (places: Seq<int>)
    ensures
        goes_up(places),
        forall|k: int| #[trigger]
            places.contains(k) <==> 0 <= k < items.len() && is_complete(items[k]),
        reviews_in(items).len() == places.len(),
        forall|i: int|
            0 <= i < places.len() ==> tells_of(
                items[places[i]],
                #[trigger] reviews_in(items)[i],
            ),
{
    let f = |n: JsonModel| review_of(n);
    let places = lemma_filter_map_places(items, f);
    assert forall|k: int| #[trigger] places.contains(k) <==> 0 <= k < items.len() && is_complete(
        items[k],
    ) by {
        assert(f(items[k]) == review_of(items[k]));
    }
    assert forall|i: int| 0 <= i < places.len() implies tells_of(
        items[places[i]],
        #[trigger] reviews_in(items)[i],
    ) by {
        assert(reviews_in(items)[i] == items.filter_map(f)[i]);
        assert(f(items[places[i]]) == review_of(items[places[i]]));
    }
    places
}

/// Whether a review is the latest that the list of reviews tells of an author: no
/// entry of the author is later, and those that stand before it are earlier.
pub open spec fn is_latest_in(items: Seq<JsonModel>, author: Seq<char>, r: ReviewModel) -> bool {
    r.author == author && exists|k: int|
        {
            &&& 0 <= k < items.len()
            &&& tells_of(#[trigger] items[k], r)
            &&& forall|j: int, time: Seq<char>|
                0 <= j < items.len() && #[trigger] entered_at(items[j], author, time) ==> !before(
                    r.submitted_at,
                    time,
                ) && (j < k ==> before(time, r.submitted_at))
        }
}

/// Whether an entry of the list of reviews is complete, and of this author at this
/// time.
pub open spec fn entered_at(item: JsonModel, author: Seq<char>, time: Seq<char>) -> bool {
    &&& is_complete(item)
    &&& item.at("author"@).at("login"@) == JsonModel::Text(author)
    &&& item.at("submittedAt"@) == JsonModel::Text(time)
}

/// Whether the list of reviews has a complete entry of an author.
pub open spec fn has_reviewed(items: Seq<JsonModel>, author: Seq<char>) -> bool {
    exists|k: int, time: Seq<char>|
        0 <= k < items.len() && #[trigger] entered_at(items[k], author, time)
}

proof fn lemma_latest_in(items: Seq<JsonModel>, author: Seq<char>)
    ensures
        ({
            let reviews = reviews_in(items);
            match latest_of(reviews, author) {
                Some(r) => is_latest_in(items, author, r) && has_reviewed(items, author),
                None => !has_reviewed(items, author),
            }
        }),
{
    let reviews = reviews_in(items);
    let places = lemma_review_places(items);
    law_latest_is_latest(reviews, author);
    assert forall|j: int, time: Seq<char>|
        0 <= j < items.len() && #[trigger] entered_at(items[j], author, time) implies exists|i: int|
        0 <= i < reviews.len() && places[i] == j && (#[trigger] reviews[i]).author == author
            && reviews[i].submitted_at == time by {
        assert(places.contains(j));
        let i = choose|i: int| 0 <= i < places.len() && places[i] == j;
        assert(tells_of(items[places[i]], reviews[i]));
    }
    match latest_of(reviews, author) {
        Some(r) => {
            let at = choose|at: int|
                {
                    &&& 0 <= at < reviews.len()
                    &&& #[trigger] reviews[at] == r
                    &&& r.author == author
                    &&& forall|j: int|
                        0 <= j < reviews.len() && (#[trigger] reviews[j]).author == author
                            ==> !before(r.submitted_at, reviews[j].submitted_at)
                    &&& forall|j: int|
                        0 <= j < at && (#[trigger] reviews[j]).author == author ==> before(
                            reviews[j].submitted_at,
                            r.submitted_at,
                        )
                };
            let k = places[at];
            assert(places.contains(k));
            assert(tells_of(items[k], r));
            assert(entered_at(items[k], author, r.submitted_at));
            assert forall|j: int, time: Seq<char>|
                0 <= j < items.len() && #[trigger] entered_at(
                    items[j],
                    author,
                    time,
                ) implies !before(r.submitted_at, time) && (j < k ==> before(
                time,
                r.submitted_at,
            )) by {
                let i = choose|i: int|
                    0 <= i < reviews.len() && places[i] == j && (#[trigger] reviews[i]).author
                        == author && reviews[i].submitted_at == time;
                assert(reviews[i].author == author);
                if j < k && i >= at {
                    if at < i {
                        assert(places[at] < places[i]);
                    }
                }
            }
        },
        None => {
            if has_reviewed(items, author) {
                let (k, time) = choose|k: int, time: Seq<char>|
                    0 <= k < items.len() && #[trigger] entered_at(items[k], author, time);
                let i = choose|i: int|
                    0 <= i < reviews.len() && places[i] == k && (#[trigger] reviews[i]).author
                        == author && reviews[i].submitted_at == time;
                assert(reviews[i].author == author);
            }
        },
    }
}

/// The entries of the list of reviews of a search result.
pub open spec fn review_entries(node: JsonModel) -> Seq<JsonModel> {
    match node.at("reviews"@).at("nodes"@) {
        JsonModel::Array(items) => items,
        _ => Seq::empty(),
    }
}

/// The viewer's own review is the latest of the entries that are the viewer's, by
/// the whole time as it is told; there is one exactly where the viewer has reviewed
/// and is not ignored.
pub proof fn law_own_is_latest(
    node: JsonModel,
    login: Seq<char>,
    sources: Seq<Seq<char>>,
    ignored: Seq<Seq<char>>,
)
    ensures
        ({
            let items = review_entries(node);
            match summary_of(node, login, sources, ignored).my_latest_review {
                Some(r) => !ignored.contains(login) && is_latest_in(items, login, r),
                None => ignored.contains(login) || !has_reviewed(items, login),
            }
        }),
{
    law_own_review(node, login, sources, ignored);
    lemma_latest_in(review_entries(node), login);
}

/// The others' reviews hold, for everyone but the viewer and the ignored accounts
/// who has reviewed, the latest of the entries that are theirs, and nothing else.
pub proof fn law_others_are_latest(
    node: JsonModel,
    login: Seq<char>,
    sources: Seq<Seq<char>>,
    ignored: Seq<Seq<char>>,
    author: Seq<char>,
)
    ensures
        ({
            let items = review_entries(node);
            let list = summary_of(node, login, sources, ignored).other_latest_reviews;
            &&& author != login && !ignored.contains(author) && has_reviewed(items, author)
                ==> exists|i: int| 0 <= i < list.len() && (#[trigger] list[i]).author == author
            &&& forall|i: int|
                0 <= i < list.len() && (#[trigger] list[i]).author == author ==> author != login
                    && !ignored.contains(author) && is_latest_in(items, author, list[i])
            &&& forall|i: int, j: int|
                0 <= i < j < list.len() ==> before(
                    (#[trigger] list[i]).author,
                    (#[trigger] list[j]).author,
                )
        }),
{
    let p = summary_of(node, login, sources, ignored);
    let items = review_entries(node);
    let list = p.other_latest_reviews;
    let kept = counted(p.reviews, ignored);
    let latest = latest_by_author(kept);
    let names = in_order(latest.dom().remove(login));
    law_others(node, login, sources, ignored);
    lemma_latest_in(items, author);
    if !ignored.contains(author) {
        lemma_latest_of_counted(p.reviews, ignored, author);
    }
    if author != login && !ignored.contains(author) && has_reviewed(items, author) {
        law_latest_is_latest(kept, author);
        let r = latest_of(kept, author)->0;
        let i = choose|i: int| 0 <= i < list.len() && list[i] == r;
        assert(list[i].author == author);
    }
    assert forall|i: int|
        0 <= i < list.len() && (#[trigger] list[i]).author == author implies author != login
        && !ignored.contains(author) && is_latest_in(items, author, list[i]) by {
        lemma_authors_finite(kept);
        crate::textmap::lemma_listable(latest.dom().remove(login));
        let a = names[i];
        assert(names.contains(a));
        assert(latest.dom().remove(login).contains(a));
        assert(list[i] == latest[a]);
        law_latest_is_latest(kept, a);
    }
}

/// Whether an entry of the list of requests asks for a review by an account written
/// like this: a user by `@login`, a team by `@org/slug`, or by `@slug` without an
/// organization.
pub open spec fn asks_by(item: JsonModel, label: Seq<char>) -> bool {
    let asked = item.at("requestedReviewer"@);
    ||| asked.at("__typename"@) == JsonModel::Text("User"@) && (
    asked.at("login"@) matches JsonModel::Text(login) && label == "@"@ + login)
    ||| asked.at("__typename"@) == JsonModel::Text("Team"@) && (
    asked.at("slug"@) matches JsonModel::Text(slug) && match asked.at("organization"@).at(
        "login"@,
    ) {
        JsonModel::Text(org) => label == "@"@ + org + "/"@ + slug,
        _ => label == "@"@ + slug,
    })
}

/// The entries of the list of requests of a search result.
pub open spec fn request_entries(node: JsonModel) -> Seq<JsonModel> {
    match node.at("reviewRequests"@).at("nodes"@) {
        JsonModel::Array(items) => items,
        _ => Seq::empty(),
    }
}

/// The accounts asked for a review are those of the list of requests that are users
/// or teams with a name, in order. A review is asked of the viewer where the search
/// for requests found the pull request or where the viewer is among them.
pub proof fn law_requests_read(
    node: JsonModel,
    login: Seq<char>,
    sources: Seq<Seq<char>>,
    ignored: Seq<Seq<char>>,
)
    ensures
        ({
            let p = summary_of(node, login, sources, ignored);
            let labels = p.requested_reviewers;
            let items = request_entries(node);
            &&& exists|places: Seq<int>|
                {
                    &&& #[trigger] goes_up(places)
                    &&& forall|k: int| #[trigger]
                        places.contains(k) <==> 0 <= k < items.len() && exists|label: Seq<char>|
                            asks_by(items[k], label)
                    &&& labels.len() == places.len()
                    &&& forall|i: int|
                        0 <= i < labels.len() ==> asks_by(items[places[i]], #[trigger] labels[i])
                }
            &&& p.requested_for_user <==> sources.contains("requested"@) || exists|k: int|
                0 <= k < items.len() && asks_by(#[trigger] items[k], "@"@ + login)
        }),
{
    reveal_strlit("User");
    reveal_strlit("Team");
    assert("User"@[0] != "Team"@[0]);
    let p = summary_of(node, login, sources, ignored);
    let labels = p.requested_reviewers;
    let items = request_entries(node);
    let f = |n: JsonModel| reviewer_label(n);
    let places = lemma_filter_map_places(items, f);
    assert(labels == items.filter_map(f));
    assert forall|k: int| 0 <= k < items.len() implies {
        &&& f(#[trigger] items[k]) is Some <==> exists|label: Seq<char>| asks_by(items[k], label)
        &&& forall|label: Seq<char>| asks_by(items[k], label) <==> f(items[k]) == Some(label)
    } by {
        let item = items[k];
        assert(f(item) == reviewer_label(item));
        assert forall|label: Seq<char>| asks_by(item, label) <==> f(item) == Some(label) by {}
        if f(item) is Some {
            assert(asks_by(item, f(item)->0));
        }
    }
    assert forall|k: int| #[trigger] places.contains(k) <==> 0 <= k < items.len() && exists|
        label: Seq<char>,
    |
        asks_by(items[k], label) by {
        if 0 <= k < items.len() {
            assert(f(items[k]) is Some <==> exists|label: Seq<char>| asks_by(items[k], label));
        }
    }
    assert forall|i: int| 0 <= i < labels.len() implies asks_by(
        items[places[i]],
        #[trigger] labels[i],
    ) by {
        assert(places.contains(places[i]));
    }
    assert(goes_up(places));
    let me = "@"@ + login;
    if labels.contains(me) {
        let i = choose|i: int| 0 <= i < labels.len() && labels[i] == me;
        assert(places.contains(places[i]));
        assert(asks_by(items[places[i]], me));
    }
    if exists|k: int| 0 <= k < items.len() && asks_by(#[trigger] items[k], me) {
        let k = choose|k: int| 0 <= k < items.len() && asks_by(#[trigger] items[k], me);
        assert(f(items[k]) == Some(me));
        assert(places.contains(k));
        let i = choose|i: int| 0 <= i < places.len() && places[i] == k;
        assert(labels[i] == me);
    }
    assert(p.requested_for_user <==> sources.contains("requested"@) || exists|k: int|
        0 <= k < items.len() && asks_by(#[trigger] items[k], "@"@ + login));
    assert(labels.len() == places.len());
    assert(forall|k: int| #[trigger]
        places.contains(k) <==> 0 <= k < items.len() && exists|label: Seq<char>|
            asks_by(items[k], label));
}

} // verus!
