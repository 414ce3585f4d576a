//! What the list of pull requests shows: which rows, and the texts and colors of
//! their cells.
use vstd::prelude::*;

use crate::model::{
    review_models, short_form, short_state, PullRequestModel, PullRequestSummary, ReviewModel,
    ReviewStatus, ReviewSummary,
};
use crate::number::{decimal, decimal_int};
use crate::rank::{key_models, place_models, rank, ranked, ranking, KeyModel, SortKey};
use crate::text::{
    after_last, all_ascii, ascii_lowered, cat, cat3, first_chars, has_part, has_prefix, is_space,
    join, joined, last_part, law_trimmed, law_trimmed_end, lemma_ascii_lowered, lowercase, occurs, pad, padded, same, stands_at, take_chars,
    texts, to_lower, trim, trim_end, trim_start, trimmed, trimmed_end, trimmed_start,
};

verus! {

/// What a link to hide stands for: it counts without surrounding white space and
/// trailing slashes.
pub open spec fn needle_of(raw: Seq<char>) -> Seq<char> {
    trimmed_end(trimmed(raw), '/')
}

/// Whether a link hides the PR at a URL: it is that URL, or one above it.
pub open spec fn hides(raw: Seq<char>, url: Seq<char>) -> bool {
    let needle = needle_of(raw);
    needle.len() > 0 && (url == needle || (needle + "/"@).is_prefix_of(url))
}

/// Whether one of the links hides the PR at a URL.
pub open spec fn excluded(url: Seq<char>, excludes: Seq<Seq<char>>) -> bool {
    exists|i: int| 0 <= i < excludes.len() && hides(#[trigger] excludes[i], url)
}

/// True when a PR should be hidden. An entry matches the exact PR URL or, when it's
/// a repo URL, any PR under it.
pub fn is_excluded(url: &str, excludes: &Vec<String>) -> (r: bool)
    ensures
        r == excluded(url@, texts(excludes@)),
{
    let ghost all = texts(excludes@);
    for i in 0..excludes.len()
        invariant
            all == texts(excludes@),
            forall|j: int| 0 <= j < i ==> !hides(#[trigger] all[j], url@),
    {
        let needle = trim_end(trim(excludes[i].as_str()).as_str(), '/');
        assert(all[i as int] == excludes@[i as int]@);
        if !needle.as_str().is_empty() && (same(url, needle.as_str()) || has_prefix(
            url,
            cat(needle.as_str(), "/").as_str(),
        )) {
            assert(hides(all[i as int], url@));
            return true;
        }
    }
    false
}

/// A link hides its own URL and every URL below it, and no link without content
/// hides anything.
pub proof fn law_link_hides_below(raw: Seq<char>, rest: Seq<char>, url: Seq<char>)
    ensures
        needle_of(raw).len() > 0 ==> hides(raw, needle_of(raw)) && hides(
            raw,
            needle_of(raw) + "/"@ + rest,
        ),
        needle_of(raw).len() == 0 ==> !hides(raw, url),
{
    let needle = needle_of(raw);
    assert((needle + "/"@ + rest).take((needle + "/"@).len() as int) =~= needle + "/"@);
}

/// The date of a timestamp.
pub fn date10(value: &str) -> (r: String)
    ensures
        r@ == first_chars(value@, 10),
{
    take_chars(value, 10)
}

/// `repo#number`.
pub open spec fn short_key(pr: PullRequestModel) -> Seq<char> {
    after_last(pr.repository, '/') + "#"@ + decimal_int(pr.number)
}

/// PR identifier without the organization: `owner/repo#42` -> `repo#42`.
pub fn pr_short(pr: &PullRequestSummary) -> (r: String)
    ensures
        r@ == short_key(pr@),
{
    cat3(last_part(pr.repository.as_str(), '/').as_str(), "#", decimal(pr.number).as_str())
}

/// The highlight color of a review state.
pub open spec fn state_tone(state: Seq<char>, dark: bool) -> Option<(u8, u8, u8)> {
    if state != "APPROVED"@ {
        None
    } else if dark {
        Some((120u8, 205u8, 130u8))
    } else {
        Some((30u8, 140u8, 60u8))
    }
}

/// Highlight color (red, green, blue) for a review state worth calling out.
/// APPROVED -> green (tuned per theme); everything else has no special color.
pub fn state_color(state: &str, dark: bool) -> (r: Option<(u8, u8, u8)>)
    ensures
        r == state_tone(state@, dark),
{
    if same(state, "APPROVED") {
        Some(if dark { (120, 205, 130) } else { (30, 140, 60) })
    } else {
        None
    }
}

/// The faint background of a status: red, green, blue and alpha.
pub open spec fn tint_of(status: ReviewStatus, dark: bool) -> Option<(u8, u8, u8, u8)> {
    match (status, dark) {
        (ReviewStatus::RequestedUntouched, true) => Some((200u8, 80u8, 80u8, 22u8)),
        (ReviewStatus::RequestedUntouched, false) => Some((220u8, 110u8, 110u8, 30u8)),
        (ReviewStatus::RequestedOthersReviewed, true) => Some((205u8, 170u8, 70u8, 20u8)),
        (ReviewStatus::RequestedOthersReviewed, false) => Some((225u8, 190u8, 110u8, 30u8)),
        (ReviewStatus::Reviewed, true) => Some((90u8, 165u8, 100u8, 18u8)),
        (ReviewStatus::Reviewed, false) => Some((150u8, 205u8, 160u8, 28u8)),
        (ReviewStatus::Other, _) => None,
    }
}

/// Very faint per-cell background (red, green, blue, alpha) per status; none for no
/// tint. Subtle on purpose, tuned for both themes.
pub fn status_tint(status: ReviewStatus, dark: bool) -> (r: Option<(u8, u8, u8, u8)>)
    ensures
        r == (match (status, dark) {
            (ReviewStatus::RequestedUntouched, true) => Some((200u8, 80u8, 80u8, 22u8)),
            (ReviewStatus::RequestedUntouched, false) => Some((220u8, 110u8, 110u8, 30u8)),
            (ReviewStatus::RequestedOthersReviewed, true) => Some((205u8, 170u8, 70u8, 20u8)),
            (ReviewStatus::RequestedOthersReviewed, false) => Some((225u8, 190u8, 110u8, 30u8)),
            (ReviewStatus::Reviewed, true) => Some((90u8, 165u8, 100u8, 18u8)),
            (ReviewStatus::Reviewed, false) => Some((150u8, 205u8, 160u8, 28u8)),
            (ReviewStatus::Other, _) => None,
        }),
        r == tint_of(status, dark),
{
    match (status, dark) {
        (ReviewStatus::RequestedUntouched, true) => Some((200, 80, 80, 22)),
        (ReviewStatus::RequestedUntouched, false) => Some((220, 110, 110, 30)),
        (ReviewStatus::RequestedOthersReviewed, true) => Some((205, 170, 70, 20)),
        (ReviewStatus::RequestedOthersReviewed, false) => Some((225, 190, 110, 30)),
        (ReviewStatus::Reviewed, true) => Some((90, 165, 100, 18)),
        (ReviewStatus::Reviewed, false) => Some((150, 205, 160, 28)),
        (ReviewStatus::Other, _) => None,
    }
}

/// Whether a text passes a filter, both in lower case. An empty filter lets
/// everything pass.
pub fn passes(needle: &str, text: &str) -> (r: bool)
    ensures
        r == (needle@.len() == 0 || occurs(needle@, text@)),
{
    needle.is_empty() || has_part(text, needle)
}

/// The text of a PR that the filter looks at.
pub open spec fn search_text(pr: PullRequestModel) -> Seq<char> {
    pr.title + " "@ + pr.repository + " "@ + pr.author
}

/// Whether a PR is shown: no link hides it, and it passes the filter.
pub open spec fn is_shown(
    pr: PullRequestModel,
    excludes: Seq<Seq<char>>,
    filter: Seq<char>,
) -> bool {
    !excluded(pr.url, excludes) && (lowercase(filter).len() == 0 || occurs(
        lowercase(filter),
        lowercase(search_text(pr)),
    ))
}

/// Whether a PR with ASCII texts is shown under an ASCII filter: no link hides it,
/// and the filter occurs in its texts, whatever the case.
pub open spec fn is_shown_ascii(
    pr: PullRequestModel,
    excludes: Seq<Seq<char>>,
    filter: Seq<char>,
) -> bool {
    !excluded(pr.url, excludes) && occurs(ascii_lowered(filter), ascii_lowered(search_text(pr)))
}

/// The places of the PRs that are shown, in order. The filter looks at title,
/// repository and author, whatever the case; an empty one lets everything pass.
pub fn visible_rows(
    prs: &Vec<PullRequestSummary>,
    excludes: &Vec<String>,
    filter: &str,
) -> (r: Vec<usize>)
    ensures
        forall|i: int, j: int| 0 <= i < j < r@.len() ==> #[trigger] r@[i] < #[trigger] r@[j],
        forall|i: int| 0 <= i < r@.len() ==> (#[trigger] r@[i]) < prs@.len(),
        forall|p: int|
            0 <= p < prs@.len() ==> (is_shown(
                (#[trigger] prs@[p])@,
                texts(excludes@),
                filter@,
            ) <==> r@.contains(p as usize)),
        forall|p: int|
            0 <= p < prs@.len() && all_ascii(filter@) && all_ascii(search_text(prs@[p]@)) ==> (
            is_shown_ascii((#[trigger] prs@[p])@, texts(excludes@), filter@) <==> r@.contains(
                p as usize,
            )),
        forall|p: int|
            0 <= p < prs@.len() && filter@.len() == 0 ==> (r@.contains(p as usize) <==> !excluded(
                (#[trigger] prs@[p])@.url,
                texts(excludes@),
            )),
{
    let needle = to_lower(filter);
    let mut out: Vec<usize> = Vec::new();
    for k in 0..prs.len()
        invariant
            forall|p: int|
                0 <= p < k && all_ascii(search_text((#[trigger] prs@[p])@)) ==> lowercase(
                    search_text(prs@[p]@),
                ) == ascii_lowered(search_text(prs@[p]@)),
            needle@ == lowercase(filter@),
            forall|i: int, j: int| 0 <= i < j < out@.len() ==> #[trigger] out@[i] < #[trigger] out@[j],
            forall|i: int| 0 <= i < out@.len() ==> (#[trigger] out@[i]) < k,
            forall|p: int|
                0 <= p < k ==> (is_shown(
                    (#[trigger] prs@[p])@,
                    texts(excludes@),
                    filter@,
                ) <==> out@.contains(p as usize)),
    {
        let ghost earlier = out@;
        let head = cat3(prs[k].title.as_str(), " ", prs[k].repository.as_str());
        let text = to_lower(cat3(head.as_str(), " ", prs[k].author.as_str()).as_str());
        let shown: bool = !is_excluded(prs[k].url.as_str(), excludes) && passes(
            needle.as_str(),
            text.as_str(),
        );
        if shown {
            out.push(k);
        }
        proof {
            assert(shown == is_shown(prs@[k as int]@, texts(excludes@), filter@));
            assert forall|p: int| 0 <= p < k + 1 implies (is_shown(
                (#[trigger] prs@[p])@,
                texts(excludes@),
                filter@,
            ) <==> out@.contains(p as usize)) by {
                if p < k {
                    if earlier.contains(p as usize) {
                        let i = choose|i: int| 0 <= i < earlier.len() && earlier[i] == p as usize;
                        assert(out@[i] == p as usize);
                    }
                    if out@.contains(p as usize) {
                        let i = choose|i: int| 0 <= i < out@.len() && out@[i] == p as usize;
                        assert(earlier[i] == p as usize);
                    }
                } else if shown {
                    assert(out@[earlier.len() as int] == p as usize);
                }
            }
        }
    }
    proof {
        let links = texts(excludes@);
        if all_ascii(filter@) {
            assert(lowercase(filter@) == ascii_lowered(filter@));
            assert forall|p: int|
                0 <= p < prs@.len() && all_ascii(search_text(prs@[p]@)) implies (is_shown_ascii(
                (#[trigger] prs@[p])@,
                links,
                filter@,
            ) <==> out@.contains(p as usize)) by {
                let text = search_text(prs@[p]@);
                assert(lowercase(text) == ascii_lowered(text));
                if filter@.len() == 0 {
                    let needle = ascii_lowered(filter@);
                    assert(ascii_lowered(text).subrange(0, 0) =~= needle);
                    assert(stands_at(needle, ascii_lowered(text), 0));
                }
            }
        }
    }
    out
}

/// The case of the ASCII letters of a filter does not matter.
pub proof fn law_filter_ignores_case(
    pr: PullRequestModel,
    excludes: Seq<Seq<char>>,
    filter: Seq<char>,
    other: Seq<char>,
)
    requires
        ascii_lowered(filter) == ascii_lowered(other),
    ensures
        is_shown_ascii(pr, excludes, filter) == is_shown_ascii(pr, excludes, other),
        is_shown_ascii(pr, excludes, ascii_lowered(filter)) == is_shown_ascii(
            pr,
            excludes,
            filter,
        ),
{
    lemma_ascii_lowered(filter);
}

/// `author:state`.
pub open spec fn other_label(review: ReviewModel) -> Seq<char> {
    review.author + ":"@ + short_form(review.state)
}

/// `author:state` of one review, for the column of others' reviews.
pub fn other_text(review: &ReviewSummary) -> (r: String)
    ensures
        r@ == other_label(review@),
{
    cat3(review.author.as_str(), ":", short_state(review.state.as_str()).as_str())
}

/// The column of others' reviews in full.
pub open spec fn others_label(pr: PullRequestModel) -> Seq<char> {
    joined(pr.other_latest_reviews.map_values(|r: ReviewModel| other_label(r)), ", "@)
}

/// The column of others' reviews in full.
pub fn others_text(pr: &PullRequestSummary) -> (r: String)
    ensures
        r@ == others_label(pr@),
{
    let ghost want = review_models(pr.other_latest_reviews@).map_values(
        |r: ReviewModel| other_label(r),
    );
    let mut list: Vec<String> = Vec::new();
    for i in 0..pr.other_latest_reviews.len()
        invariant
            want == review_models(pr.other_latest_reviews@).map_values(
                |r: ReviewModel| other_label(r),
            ),
            texts(list@) == want.take(i as int),
    {
        let ghost earlier = texts(list@);
        let item = other_text(&pr.other_latest_reviews[i]);
        let ghost it = item@;
        list.push(item);
        assert(want[i as int] == it);
        assert(texts(list@) =~= earlier.push(it));
        assert(want.take(i + 1) =~= earlier.push(it));
    }
    assert(want.take(want.len() as int) =~= want);
    join(&list, ", ")
}

/// The accounts asked for a review, without their `@`.
pub open spec fn bare_names(pr: PullRequestModel) -> Seq<char> {
    joined(pr.requested_reviewers.map_values(|r: Seq<char>| trimmed_start(r, '@')), ", "@)
}

/// The accounts asked for a review, without their `@`; `none` where there are none.
pub fn requested_text(pr: &PullRequestSummary, none: &str) -> (r: String)
    ensures
        r@ == (if pr@.requested_reviewers.len() == 0 {
            none@
        } else {
            bare_names(pr@)
        }),
{
    if pr.requested_reviewers.len() == 0 {
        return none.to_owned();
    }
    let ghost want = texts(pr.requested_reviewers@).map_values(
        |r: Seq<char>| trimmed_start(r, '@'),
    );
    let mut list: Vec<String> = Vec::new();
    for i in 0..pr.requested_reviewers.len()
        invariant
            want == texts(pr.requested_reviewers@).map_values(
                |r: Seq<char>| trimmed_start(r, '@'),
            ),
            texts(list@) == want.take(i as int),
    {
        let ghost earlier = texts(list@);
        let item = trim_start(pr.requested_reviewers[i].as_str(), '@');
        let ghost it = item@;
        list.push(item);
        assert(want[i as int] == it);
        assert(texts(list@) =~= earlier.push(it));
        assert(want.take(i + 1) =~= earlier.push(it));
    }
    assert(want.take(want.len() as int) =~= want);
    join(&list, ", ")
}

/// The short state of a viewer's own review, or a dash.
pub open spec fn own_label(pr: PullRequestModel) -> Seq<char> {
    match pr.my_latest_review {
        Some(review) => short_form(review.state),
        None => "-"@,
    }
}

/// The short state of the viewer's own review, or a dash.
pub fn mine_text(pr: &PullRequestSummary) -> (r: String)
    ensures
        r@ == own_label(pr@),
{
    match &pr.my_latest_review {
        Some(review) => short_state(review.state.as_str()),
        None => "-".to_owned(),
    }
}

/// What reviews are sorted by in the history.
pub open spec fn time_keys(reviews: Seq<ReviewModel>) -> Seq<KeyModel> {
    reviews.map_values(|r: ReviewModel| KeyModel { rank: 0, text: r.submitted_at })
}

/// The reviews from the earliest to the latest; those of one time stay in order.
pub open spec fn timeline(reviews: Seq<ReviewModel>) -> Seq<ReviewModel> {
    ranked(reviews, time_keys(reviews), false)
}

/// The line of a review in the history.
pub open spec fn history_line(review: ReviewModel) -> Seq<char> {
    "  "@ + first_chars(review.submitted_at, 10) + "  "@ + padded(review.author, 16) + " "@
        + short_form(review.state)
}

/// The details of a PR, line by line.
pub open spec fn detail_lines(pr: PullRequestModel) -> Seq<Seq<char>> {
    let head = seq![
        pr.key() + "  ("@ + pr.state + ")"@,
        pr.title,
        "author: "@ + pr.author + if pr.is_draft {
            "  (draft)"@
        } else {
            ""@
        },
    ];
    let decision = match pr.review_decision {
        Some(decision) => seq!["decision: "@ + decision],
        None => Seq::empty(),
    };
    let dates = seq![
        "created: "@ + first_chars(pr.created_at, 10) + "   updated: "@ + first_chars(
            pr.updated_at,
            10,
        ),
    ];
    let via = if pr.sources.len() > 0 {
        seq!["via: "@ + joined(pr.sources, ", "@)]
    } else {
        Seq::empty()
    };
    let history = if pr.reviews.len() > 0 {
        seq![""@, "reviews:"@] + timeline(pr.reviews).map_values(|r: ReviewModel| history_line(r))
    } else {
        Seq::empty()
    };
    head + decision + dates + via + history
}

fn line_of(review: &ReviewSummary) -> (r: String)
    ensures
        r@ == history_line(review@),
{
    let date = cat3("  ", date10(review.submitted_at.as_str()).as_str(), "  ");
    let who = cat3(date.as_str(), pad(review.author.as_str(), 16).as_str(), " ");
    cat(who.as_str(), short_state(review.state.as_str()).as_str())
}

fn history_of(reviews: &Vec<ReviewSummary>) -> (r: Vec<String>)
    ensures
        texts(r@) == timeline(review_models(reviews@)).map_values(|r: ReviewModel| history_line(r)),
{
    let ghost all = review_models(reviews@);
    let mut keys: Vec<SortKey> = Vec::new();
    for i in 0..reviews.len()
        invariant
            all == review_models(reviews@),
            key_models(keys@) == time_keys(all).take(i as int),
    {
        let ghost earlier = key_models(keys@);
        let key = SortKey { rank: 0, text: reviews[i].submitted_at.clone() };
        let ghost it = key@;
        keys.push(key);
        assert(time_keys(all)[i as int] == it);
        assert(key_models(keys@) =~= earlier.push(it));
        assert(time_keys(all).take(i + 1) =~= earlier.push(it));
    }
    assert(time_keys(all).take(all.len() as int) =~= time_keys(all));
    let order = rank(&keys, false);
    let ghost want = timeline(all).map_values(|r: ReviewModel| history_line(r));
    let mut out: Vec<String> = Vec::new();
    for i in 0..order.len()
        invariant
            all == review_models(reviews@),
            want == timeline(all).map_values(|r: ReviewModel| history_line(r)),
            place_models(order@) == ranking(time_keys(all), false),
            forall|j: int| 0 <= j < order@.len() ==> (#[trigger] order@[j]) < reviews@.len(),
            texts(out@) == want.take(i as int),
    {
        let ghost earlier = texts(out@);
        let line = line_of(&reviews[order[i]]);
        let ghost it = line@;
        out.push(line);
        proof {
            assert(place_models(order@)[i as int] == order@[i as int] as int);
            assert(timeline(all)[i as int] == all[order@[i as int] as int]);
            assert(want[i as int] == it);
            assert(texts(out@) =~= earlier.push(it));
            assert(want.take(i + 1) =~= earlier.push(it));
        }
    }
    assert(want.len() == place_models(order@).len());
    assert(want.take(want.len() as int) =~= want);
    out
}

/// The details of a PR that are shown on hovering.
pub fn detail_text(pr: &PullRequestSummary) -> (r: String)
    ensures
        r@ == joined(detail_lines(pr@), "\n"@),
{
    let mut lines: Vec<String> = Vec::new();
    let first = cat3(pr.pr_key().as_str(), "  (", pr.state.as_str());
    lines.push(cat(first.as_str(), ")"));
    lines.push(pr.title.clone());
    let draft = if pr.is_draft {
        "  (draft)"
    } else {
        ""
    };
    lines.push(cat3("author: ", pr.author.as_str(), draft));
    let ghost head = seq![
        pr@.key() + "  ("@ + pr@.state + ")"@,
        pr@.title,
        "author: "@ + pr@.author + if pr@.is_draft {
            "  (draft)"@
        } else {
            ""@
        },
    ];
    assert(texts(lines@) =~= head);
    let ghost decision = match pr@.review_decision {
        Some(decision) => seq!["decision: "@ + decision],
        None => Seq::empty(),
    };
    if let Some(text) = &pr.review_decision {
        lines.push(cat("decision: ", text.as_str()));
    }
    assert(texts(lines@) =~= head + decision);
    let created = cat3("created: ", date10(pr.created_at.as_str()).as_str(), "   updated: ");
    let dates = cat(created.as_str(), date10(pr.updated_at.as_str()).as_str());
    let ghost date_lines = seq![dates@];
    lines.push(dates);
    assert(texts(lines@) =~= head + decision + date_lines);
    let ghost via = if pr@.sources.len() > 0 {
        seq!["via: "@ + joined(pr@.sources, ", "@)]
    } else {
        Seq::empty()
    };
    if pr.sources.len() > 0 {
        lines.push(cat("via: ", join(&pr.sources, ", ").as_str()));
    }
    assert(texts(lines@) =~= head + decision + date_lines + via);
    let ghost before_history = texts(lines@);
    if pr.reviews.len() > 0 {
        lines.push(String::new());
        lines.push("reviews:".to_owned());
        let history = history_of(&pr.reviews);
        let ghost every = texts(history@);
        proof {
            reveal_strlit("");
            assert(""@ =~= Seq::empty());
            assert(texts(lines@) =~= before_history + seq![""@, "reviews:"@] + every.take(0));
        }
        for i in 0..history.len()
            invariant
                every == texts(history@),
                texts(lines@) == before_history + seq![""@, "reviews:"@] + every.take(i as int),
        {
            let ghost earlier = texts(lines@);
            lines.push(history[i].clone());
            assert(texts(lines@) =~= earlier.push(history@[i as int]@));
            assert(every.take(i + 1) =~= every.take(i as int).push(history@[i as int]@));
            assert(texts(lines@) =~= before_history + seq![""@, "reviews:"@] + every.take(i + 1));
        }
        assert(every.take(every.len() as int) =~= every);
        assert(texts(lines@) =~= before_history + (seq![""@, "reviews:"@] + every));
    } else {
        assert(before_history + Seq::<Seq<char>>::empty() =~= before_history);
    }
    assert(texts(lines@) =~= detail_lines(pr@));
    join(&lines, "\n")
}

/// The history goes from the earliest review to the latest, and leaves none out.
pub proof fn law_timeline(reviews: Seq<ReviewModel>)
    ensures
        timeline(reviews).len() == reviews.len(),
        forall|i: int, j: int|
            0 <= i < j < timeline(reviews).len() ==> !crate::order::before(
                (#[trigger] timeline(reviews)[j]).submitted_at,
                (#[trigger] timeline(reviews)[i]).submitted_at,
            ),
        forall|r: ReviewModel| #[trigger]
            reviews.contains(r) <==> timeline(reviews).contains(r),
{
    let keys = time_keys(reviews);
    let places = ranking(keys, false);
    let list = timeline(reviews);
    crate::rank::lemma_rankable(keys, false);
    assert forall|i: int, j: int| 0 <= i < j < list.len() implies !crate::order::before(
        (#[trigger] list[j]).submitted_at,
        (#[trigger] list[i]).submitted_at,
    ) by {
        let p = places[i];
        let q = places[j];
        assert(places.contains(p) && places.contains(q));
        assert(crate::rank::precedes(keys, false, p, q));
        if crate::order::before(reviews[p].submitted_at, reviews[q].submitted_at) {
            crate::order::lemma_asymmetric(reviews[p].submitted_at, reviews[q].submitted_at);
        }
    }
    assert forall|r: ReviewModel| #[trigger] reviews.contains(r) <==> list.contains(r) by {
        if reviews.contains(r) {
            let p = choose|p: int| 0 <= p < reviews.len() && reviews[p] == r;
            assert(places.contains(p));
            let i = choose|i: int| 0 <= i < places.len() && places[i] == p;
            assert(list[i] == r);
        }
        if list.contains(r) {
            let i = choose|i: int| 0 <= i < list.len() && list[i] == r;
            assert(places.contains(places[i]));
            assert(reviews[places[i]] == r);
        }
    }
}

/// What a link to hide stands for is the link itself but for white space around it
/// and the slashes at its end.
pub proof fn law_needle(raw: Seq<char>)
    ensures
        exists|from: int, to: int, slashes: int|
            {
                &&& 0 <= from <= to <= slashes <= raw.len()
                &&& needle_of(raw) == #[trigger] raw.subrange(from, to)
                &&& #[trigger] raw.subrange(to, slashes) == Seq::new(
                    (slashes - to) as nat,
                    |i: int| '/',
                )
                &&& forall|i: int| 0 <= i < from ==> is_space(#[trigger] raw[i])
                &&& forall|i: int| slashes <= i < raw.len() ==> is_space(#[trigger] raw[i])
            },
        needle_of(raw).len() > 0 ==> !is_space(needle_of(raw)[0]) && needle_of(raw).last() != '/',
{
    law_trimmed(raw);
    let bare = trimmed(raw);
    let (from, end) = choose|from: int, end: int|
        {
            &&& 0 <= from <= end <= raw.len()
            &&& bare == #[trigger] raw.subrange(from, end)
            &&& forall|i: int| 0 <= i < from ==> is_space(#[trigger] raw[i])
            &&& forall|i: int| end <= i < raw.len() ==> is_space(#[trigger] raw[i])
        };
    law_trimmed_end(bare, '/');
    let needle = needle_of(raw);
    let to = from + needle.len();
    assert(needle =~= raw.subrange(from, to)) by {
        assert(bare.subrange(0, needle.len() as int) =~= raw.subrange(from, to));
    }
    assert(raw.subrange(to, end) =~= Seq::new((end - to) as nat, |i: int| '/')) by {
        assert forall|i: int| to <= i < end implies raw[i] == '/' by {
            assert(bare[i - from] == raw[i]);
        }
    }
    if needle.len() > 0 {
        assert(needle[0] == bare[0]);
    }
}

/// A link hides a pull request whose address is the link, or goes on after the link
/// with a slash; a list of links hides what one of them does.
pub proof fn law_hidden(
    raw: Seq<char>,
    url: Seq<char>,
    a: Seq<Seq<char>>,
    b: Seq<Seq<char>>,
)
    ensures
        hides(raw, url) <==> needle_of(raw).len() > 0 && (url == needle_of(raw) || exists|
            rest: Seq<char>,
        |
            #[trigger] (needle_of(raw).push('/') + rest) == url),
        excluded(url, seq![raw]) <==> hides(raw, url),
        excluded(url, a + b) <==> excluded(url, a) || excluded(url, b),
        !excluded(url, Seq::empty()),
{
    let needle = needle_of(raw);
    reveal_strlit("/");
    assert(needle + "/"@ =~= needle.push('/'));
    let start = needle.push('/');
    if start.is_prefix_of(url) {
        assert(start + url.skip(start.len() as int) =~= url);
    }
    if exists|rest: Seq<char>| #[trigger] (start + rest) == url {
        let rest = choose|rest: Seq<char>| #[trigger] (start + rest) == url;
        assert(url.subrange(0, start.len() as int) =~= start);
    }
    if hides(raw, url) {
        assert(hides(seq![raw][0], url));
    }
    let all = a + b;
    if excluded(url, all) {
        let i = choose|i: int| 0 <= i < all.len() && hides(#[trigger] all[i], url);
        if i < a.len() {
            assert(hides(a[i], url));
        } else {
            assert(hides(b[i - a.len()], url));
        }
    }
    if excluded(url, a) {
        let i = choose|i: int| 0 <= i < a.len() && hides(#[trigger] a[i], url);
        assert(hides(all[i], url));
    }
    if excluded(url, b) {
        let i = choose|i: int| 0 <= i < b.len() && hides(#[trigger] b[i], url);
        assert(hides(all[a.len() + i], url));
    }
}

/// A pull request is called in short by the last part of its repository, a number
/// sign and its number.
pub proof fn law_short_key(pr: PullRequestModel)
    ensures
        exists|repo: Seq<char>|
            {
                &&& short_key(pr) == #[trigger] (repo.push('#') + decimal_int(pr.number))
                &&& repo.is_suffix_of(pr.repository)
                &&& !repo.contains('/')
                &&& repo.len() < pr.repository.len() ==> pr.repository[pr.repository.len()
                    - repo.len() - 1] == '/'
            },
{
    let repo = after_last(pr.repository, '/');
    crate::text::lemma_after_last(pr.repository, '/');
    reveal_strlit("#");
    let at = pr.repository.len() - repo.len();
    assert(pr.repository.subrange(at, pr.repository.len() as int) =~= pr.repository.skip(at));
    assert(short_key(pr) =~= repo.push('#') + decimal_int(pr.number));
}

/// An approval alone has a color of its own, a green that fits the theme.
pub proof fn law_state_tone(state: Seq<char>, dark: bool)
    ensures
        state_tone(state, dark) is Some <==> state == "APPROVED"@,
        state_tone(state, dark) matches Some(tone) ==> tone.1 > tone.0 && tone.1 > tone.2,
        state_tone(state, true) is Some ==> state_tone(state, true) != state_tone(state, false),
{
}

/// A filter that occurs in the title, the repository or the author of a pull request,
/// whatever the case, leaves it in the list, unless a link hides it; and one that is
/// left has the filter in these texts one after the other.
pub proof fn law_filter_finds(pr: PullRequestModel, excludes: Seq<Seq<char>>, filter: Seq<char>)
    ensures
        ({
            let needle = ascii_lowered(filter);
            let hit = occurs(needle, ascii_lowered(pr.title)) || occurs(
                needle,
                ascii_lowered(pr.repository),
            ) || occurs(needle, ascii_lowered(pr.author));
            &&& hit && !excluded(pr.url, excludes) ==> is_shown_ascii(pr, excludes, filter)
            &&& is_shown_ascii(pr, excludes, filter) <==> !excluded(pr.url, excludes) && occurs(
                needle,
                ascii_lowered(joined(seq![pr.title, pr.repository, pr.author], " "@)),
            )
        }),
{
    let needle = ascii_lowered(filter);
    let sep = " "@;
    let all = search_text(pr);
    let parts = seq![pr.title, pr.repository, pr.author];
    reveal_with_fuel(joined, 3);
    assert(parts.drop_last() =~= seq![pr.title, pr.repository]);
    assert(parts.drop_last().drop_last() =~= seq![pr.title]);
    assert(joined(parts, sep) =~= all);
    if occurs(needle, ascii_lowered(pr.title)) {
        lemma_still_occurs(needle, Seq::empty(), pr.title, sep + pr.repository + sep + pr.author);
        assert(Seq::<char>::empty() + pr.title + (sep + pr.repository + sep + pr.author) =~= all);
    }
    if occurs(needle, ascii_lowered(pr.repository)) {
        lemma_still_occurs(needle, pr.title + sep, pr.repository, sep + pr.author);
        assert(pr.title + sep + pr.repository + (sep + pr.author) =~= all);
    }
    if occurs(needle, ascii_lowered(pr.author)) {
        lemma_still_occurs(
            needle,
            pr.title + sep + pr.repository + sep,
            pr.author,
            Seq::empty(),
        );
        assert(pr.title + sep + pr.repository + sep + pr.author + Seq::<char>::empty() =~= all);
    }
}

proof fn lemma_still_occurs(needle: Seq<char>, a: Seq<char>, s: Seq<char>, b: Seq<char>)
    requires
        occurs(needle, ascii_lowered(s)),
    ensures
        occurs(needle, ascii_lowered(a + s + b)),
{
    let at = choose|at: int| stands_at(needle, ascii_lowered(s), at);
    let all = ascii_lowered(a + s + b);
    let from = a.len() + at;
    assert(all.subrange(from, from + needle.len()) =~= ascii_lowered(s).subrange(
        at,
        at + needle.len(),
    ));
    assert(stands_at(needle, all, from));
}

/// The columns: each of the others with the short form of their review, those asked
/// by their names without the `@`, and the user's own review, or a dash.
pub proof fn law_columns(pr: PullRequestModel, i: int)
    ensures
        pr.other_latest_reviews.len() == 1 ==> others_label(pr) == pr.other_latest_reviews[0].author
            + ":"@ + short_form(pr.other_latest_reviews[0].state),
        0 <= i < pr.other_latest_reviews.len() ==> occurs(
            pr.other_latest_reviews[i].author + ":"@ + short_form(pr.other_latest_reviews[i].state),
            others_label(pr),
        ),
        pr.other_latest_reviews.len() == 0 ==> others_label(pr).len() == 0,
        0 <= i < pr.requested_reviewers.len() ==> occurs(
            trimmed_start(pr.requested_reviewers[i], '@'),
            bare_names(pr),
        ),
        pr.requested_reviewers.len() == 1 ==> bare_names(pr) == trimmed_start(
            pr.requested_reviewers[0],
            '@',
        ),
        own_label(pr) == match pr.my_latest_review {
            Some(r) => short_form(r.state),
            None => seq!['-'],
        },
{
    reveal_strlit("-");
    assert("-"@ =~= seq!['-']);
    let labels = pr.other_latest_reviews.map_values(|r: ReviewModel| other_label(r));
    let names = pr.requested_reviewers.map_values(|r: Seq<char>| trimmed_start(r, '@'));
    if 0 <= i < labels.len() {
        crate::text::law_joined_holds(labels, ", "@, i);
    }
    if 0 <= i < names.len() {
        crate::text::law_joined_holds(names, ", "@, i);
    }
    if labels.len() == 1 {
        assert(labels =~= seq![labels[0]]);
        crate::text::law_joined(labels, labels, labels[0], ", "@);
    }
    if names.len() == 1 {
        assert(names =~= seq![names[0]]);
        crate::text::law_joined(names, names, names[0], ", "@);
    }
}

/// The history is the reviews rearranged, each as often as it is there; those of one
/// time keep their order.
pub proof fn law_timeline_keeps(reviews: Seq<ReviewModel>)
    ensures
        exists|places: Seq<int>|
            {
                &&& #[trigger] places.no_duplicates()
                &&& places.len() == reviews.len()
                &&& forall|k: int| #[trigger] places.contains(k) <==> 0 <= k < reviews.len()
                &&& timeline(reviews).len() == reviews.len()
                &&& forall|i: int|
                    0 <= i < places.len() ==> #[trigger] timeline(reviews)[i] == reviews[places[i]]
                &&& forall|i: int, j: int|
                    0 <= i < j < places.len() && timeline(reviews)[i].submitted_at == timeline(
                        reviews,
                    )[j].submitted_at ==> #[trigger] places[i] < #[trigger] places[j]
            },
{
    let keys = time_keys(reviews);
    let places = ranking(keys, false);
    let list = timeline(reviews);
    crate::rank::lemma_rankable(keys, false);
    assert forall|i: int| 0 <= i < places.len() implies 0 <= #[trigger] places[i] < reviews.len() by {
        assert(places.contains(places[i]));
    }
    assert forall|i: int, j: int| 0 <= i < j < places.len() implies places[i] != places[j] && (
    list[i].submitted_at == list[j].submitted_at ==> #[trigger] places[i] < #[trigger] places[j]) by {
        let p = places[i];
        let q = places[j];
        assert(crate::rank::precedes(keys, false, p, q));
        crate::order::lemma_irreflexive(reviews[p].submitted_at);
        assert(keys[p].text == list[i].submitted_at && keys[q].text == list[j].submitted_at);
    }
    assert(places.no_duplicates());
}

/// The details of a pull request: what it is called with its state, its title, its
/// author and whether it is a draft; the decision where there is one; the days on
/// which it was made and last updated; the searches that found it; and at the end the
/// history, a line for each review with its day, author and short state.
pub proof fn law_details(pr: PullRequestModel, i: int)
    ensures
        ({
            let lines = detail_lines(pr);
            let decided: int = if pr.review_decision is Some {
                1
            } else {
                0
            };
            let found: int = if pr.sources.len() > 0 {
                1
            } else {
                0
            };
            let history: int = if pr.reviews.len() > 0 {
                pr.reviews.len() as int + 2
            } else {
                0
            };
            &&& lines.len() == 4 + decided + found + history
            &&& lines[0] == pr.key() + "  ("@ + pr.state + ")"@
            &&& lines[1] == pr.title
            &&& pr.is_draft ==> lines[2] == "author: "@ + pr.author + "  (draft)"@
            &&& !pr.is_draft ==> lines[2] == "author: "@ + pr.author
            &&& pr.review_decision matches Some(decision) ==> lines[3] == "decision: "@ + decision
            &&& lines[3 + decided] == "created: "@ + first_chars(pr.created_at, 10)
                + "   updated: "@ + first_chars(pr.updated_at, 10)
            &&& found > 0 ==> lines[4 + decided] == "via: "@ + joined(pr.sources, ", "@)
            &&& history > 0 ==> lines[4 + decided + found].len() == 0 && lines[5 + decided + found]
                == "reviews:"@
            &&& 0 <= i < pr.reviews.len() ==> {
                let r = timeline(pr.reviews)[i];
                lines[6 + decided + found + i] == "  "@ + first_chars(r.submitted_at, 10) + "  "@
                    + padded(r.author, 16) + " "@ + short_form(r.state)
            }
        }),
{
    reveal_strlit("");
    assert(""@ =~= Seq::empty());
    law_timeline(pr.reviews);
    let author = "author: "@ + pr.author;
    assert(author + ""@ =~= author);
}

/// What waits for the user is tinted red, what others have reviewed meanwhile yellow,
/// what the user has reviewed green, and the rest not at all; every tint is faint, and
/// fits the theme.
pub proof fn law_tint(p: PullRequestModel, dark: bool)
    ensures
        ({
            let tint = tint_of(p.status(), dark);
            &&& tint is None <==> !p.requested_for_user && p.my_latest_review is None
            &&& tint matches Some(t) ==> t.3 <= 30 && {
                &&& p.requested_for_user && (p.my_latest_review is Some
                    || p.other_latest_reviews.len() == 0) ==> t.0 > t.1 && t.1 == t.2
                &&& p.requested_for_user && p.my_latest_review is None
                    && p.other_latest_reviews.len() > 0 ==> t.0 > t.1 && t.1 > t.2
                &&& !p.requested_for_user ==> t.1 > t.0 && t.1 > t.2
            }
            &&& tint is Some ==> tint_of(p.status(), true) != tint_of(p.status(), false)
        }),
{
}

/// The columns of others and of those asked go on in order, with a comma between each
/// two.
pub proof fn law_columns_in_order(
    all: PullRequestModel,
    first: PullRequestModel,
    rest: PullRequestModel,
)
    ensures
        first.other_latest_reviews.len() > 0 && rest.other_latest_reviews.len() > 0
            && all.other_latest_reviews == first.other_latest_reviews + rest.other_latest_reviews
            ==> others_label(all) == others_label(first) + ", "@ + others_label(rest),
        first.requested_reviewers.len() > 0 && rest.requested_reviewers.len() > 0
            && all.requested_reviewers == first.requested_reviewers + rest.requested_reviewers
            ==> bare_names(all) == bare_names(first) + ", "@ + bare_names(rest),
{
    let f = |r: ReviewModel| other_label(r);
    let g = |r: Seq<char>| trimmed_start(r, '@');
    let a = first.other_latest_reviews;
    let b = rest.other_latest_reviews;
    let c = first.requested_reviewers;
    let d = rest.requested_reviewers;
    assert((a + b).map_values(f) =~= a.map_values(f) + b.map_values(f));
    assert((c + d).map_values(g) =~= c.map_values(g) + d.map_values(g));
    crate::text::law_joined(a.map_values(f), b.map_values(f), ""@, ", "@);
    crate::text::law_joined(c.map_values(g), d.map_values(g), ""@, ", "@);
}

} // verus!
