//! What the command line prints: the list of pull requests and the review
//! statistics, as text and as JSON.
use vstd::prelude::*;

use crate::config::{text_array, text_array_of};
use crate::json::{
    array_value, named, named_values, names_increase, object_value, orderly, render_json, rendered,
    text_value, values, Json, JsonModel, Member,
};
use crate::lists::{goes_up, lemma_filter_places};
use crate::model::{
    pr_models, review_models, short_form, short_state, PullRequestModel, PullRequestSummary,
    ReviewModel, ReviewStatus, ReviewSummary,
};
use crate::number::{decimal_nat, decimal_usize};
use crate::order::{before, lemma_transitive};
use crate::text::{
    all_ascii, byte_slice, cat, cat3, join, joined, occurs, same, slice_bytes, texts,
};
use crate::view::{bare_names, excluded, is_excluded, mine_text, own_label, requested_text};

verus! {

/// What the command line asks for.
#[derive(Clone, Copy, PartialEq, Eq, Structural, Debug)]
pub enum Command {
    /// The window.
    Gui,
    /// The list of pull requests, as JSON or as text.
    Status { json: bool },
    /// The review statistics, as JSON or as text.
    Stats { json: bool },
}

/// What arguments ask for; the first is the program itself.
pub open spec fn command_in(args: Seq<Seq<char>>) -> Command {
    let json = args.skip(1).contains("--json"@);
    if args.len() >= 2 && args[1] == "status"@ {
        Command::Status { json }
    } else if args.len() >= 2 && args[1] == "stats"@ {
        Command::Stats { json }
    } else {
        Command::Gui
    }
}

/// What the arguments of the program ask for.
pub fn parse_command(args: &Vec<String>) -> (r: Command)
    ensures
        r == command_in(texts(args@)),
{
    let ghost all = texts(args@);
    if args.len() < 2 {
        return Command::Gui;
    }
    assert(all[1] == args@[1]@);
    let mut json: bool = false;
    for i in 1..args.len()
        invariant
            all == texts(args@),
            args@.len() >= 2,
            json ==> all.skip(1).contains("--json"@),
            !json ==> forall|j: int| 1 <= j < i ==> all[j] != "--json"@,
    {
        assert(all[i as int] == args@[i as int]@);
        if same(args[i].as_str(), "--json") {
            assert(all.skip(1)[i - 1] == "--json"@);
            json = true;
        }
    }
    proof {
        if all.skip(1).contains("--json"@) {
            let j = choose|j: int| 0 <= j < all.skip(1).len() && all.skip(1)[j] == "--json"@;
            assert(all[j + 1] == "--json"@);
        }
    }
    if same(args[1].as_str(), "status") {
        Command::Status { json }
    } else if same(args[1].as_str(), "stats") {
        Command::Stats { json }
    } else {
        Command::Gui
    }
}

/// The PRs that no link hides.
pub open spec fn not_hidden(
    prs: Seq<PullRequestModel>,
    excludes: Seq<Seq<char>>,
) -> Seq<PullRequestModel> {
    prs.filter(|p: PullRequestModel| !excluded(p.url, excludes))
}

/// The PRs that no link hides.
pub fn visible(prs: &Vec<PullRequestSummary>, excludes: &Vec<String>) -> (r: Vec<
    PullRequestSummary,
>)
    ensures
        pr_models(r@) == not_hidden(pr_models(prs@), texts(excludes@)),
{
    let ghost links = texts(excludes@);
    let ghost keep = |p: PullRequestModel| !excluded(p.url, links);
    let ghost all = pr_models(prs@);
    let mut out: Vec<PullRequestSummary> = Vec::new();
    reveal(Seq::filter);
    assert(pr_models(out@) =~= all.take(0).filter(keep));
    for i in 0..prs.len()
        invariant
            links == texts(excludes@),
            all == pr_models(prs@),
            keep == (|p: PullRequestModel| !excluded(p.url, links)),
            pr_models(out@) == all.take(i as int).filter(keep),
    {
        reveal(Seq::filter);
        let ghost earlier = pr_models(out@);
        proof {
            assert(all.take(i + 1).drop_last() =~= all.take(i as int));
            assert(all.take(i + 1).last() == prs@[i as int]@);
        }
        if !is_excluded(prs[i].url.as_str(), excludes) {
            out.push(prs[i].copy());
            assert(pr_models(out@) =~= earlier.push(prs@[i as int]@));
        }
    }
    assert(all.take(all.len() as int) =~= all);
    out
}

/// The PRs with a status.
pub open spec fn with_status(
    prs: Seq<PullRequestModel>,
    status: ReviewStatus,
) -> Seq<PullRequestModel> {
    prs.filter(|p: PullRequestModel| p.status() == status)
}

/// Others' reviews as `author (state)`.
pub open spec fn others_listed(reviews: Seq<ReviewModel>) -> Seq<char> {
    if reviews.len() == 0 {
        "(なし)"@
    } else {
        joined(
            reviews.map_values(
                |r: ReviewModel| r.author + " ("@ + short_form(r.state) + ")"@,
            ),
            ", "@,
        )
    }
}

/// The accounts asked for a review.
pub open spec fn requested_listed(pr: PullRequestModel) -> Seq<char> {
    if pr.requested_reviewers.len() == 0 {
        "(なし)"@
    } else {
        bare_names(pr)
    }
}

/// The entry of a PR with its number in the list.
pub open spec fn entry_text(pr: PullRequestModel, number: int) -> Seq<char> {
    "  "@ + decimal_nat(number as nat) + ". "@ + pr.key() + "  "@ + pr.title + "\n     URL: "@
        + pr.url + "\n     Author: "@ + pr.author + " | Updated: "@ + byte_slice(
        pr.updated_at,
        0,
        10,
    )->0 + "\n     Requested: "@ + requested_listed(pr) + "\n     My review: "@ + own_label(pr)
        + " | Others: "@ + others_listed(pr.other_latest_reviews) + "\n\n"@
}

/// The entries of PRs, numbered from `first` on.
pub open spec fn entries_text(prs: Seq<PullRequestModel>, first: int) -> Seq<char>
    decreases prs.len(),
{
    if prs.len() == 0 {
        Seq::empty()
    } else {
        entries_text(prs.drop_last(), first) + entry_text(prs.last(), first + prs.len() - 1)
    }
}

/// The text of the PRs with one status, numbered from `first` on; nothing where
/// there are none.
pub open spec fn group_text(
    prs: Seq<PullRequestModel>,
    status: ReviewStatus,
    label: Seq<char>,
    description: Seq<char>,
    first: int,
) -> Seq<char> {
    let group = with_status(prs, status);
    if group.len() == 0 {
        Seq::empty()
    } else {
        "["@ + label + "] "@ + description + ": "@ + decimal_nat(group.len()) + "件\n\n"@
            + entries_text(group, first)
    }
}

/// The list of PRs as text: a head line, then the PRs by status, numbered through.
pub open spec fn status_text(login: Seq<char>, prs: Seq<PullRequestModel>) -> Seq<char> {
    let head = "=== gh-review-insight status (login: "@ + login + ") ===\n\n"@;
    let first: int = 1;
    let second = first + with_status(prs, ReviewStatus::RequestedUntouched).len();
    let third = second + with_status(prs, ReviewStatus::RequestedOthersReviewed).len();
    let fourth = third + with_status(prs, ReviewStatus::Reviewed).len();
    head + group_text(
        prs,
        ReviewStatus::RequestedUntouched,
        "waiting"@,
        "要レビュー・誰もまだレビューしていない"@,
        first,
    ) + group_text(
        prs,
        ReviewStatus::RequestedOthersReviewed,
        "should"@,
        "要レビュー・誰かがレビュー済み"@,
        second,
    ) + group_text(prs, ReviewStatus::Reviewed, "reviewed"@, "レビュー済み"@, third)
        + group_text(prs, ReviewStatus::Other, "other"@, "その他"@, fourth)
}

/// Whether a timestamp has a date of ten bytes to print.
pub open spec fn has_date(stamp: Seq<char>) -> bool {
    byte_slice(stamp, 0, 10) is Some
}

/// Whether a timestamp has a date of ten bytes to print.
pub fn dated(stamp: &str) -> (r: bool)
    ensures
        r == has_date(stamp@),
{
    slice_bytes(stamp, 0, 10).is_some()
}

fn list_others(reviews: &Vec<ReviewSummary>) -> (r: String)
    ensures
        r@ == others_listed(review_models(reviews@)),
{
    if reviews.len() == 0 {
        return "(なし)".to_owned();
    }
    let ghost want = review_models(reviews@).map_values(
        |r: ReviewModel| r.author + " ("@ + short_form(r.state) + ")"@,
    );
    let mut list: Vec<String> = Vec::new();
    for i in 0..reviews.len()
        invariant
            want == review_models(reviews@).map_values(
                |r: ReviewModel| r.author + " ("@ + short_form(r.state) + ")"@,
            ),
            texts(list@) == want.take(i as int),
    {
        let ghost earlier = texts(list@);
        let state = short_state(reviews[i].state.as_str());
        let item = cat(cat3(reviews[i].author.as_str(), " (", state.as_str()).as_str(), ")");
        let ghost it = item@;
        list.push(item);
        assert(want[i as int] == it);
        assert(texts(list@) =~= earlier.push(it));
        assert(want.take(i + 1) =~= earlier.push(it));
    }
    assert(want.take(want.len() as int) =~= want);
    join(&list, ", ")
}

fn print_entry(pr: &PullRequestSummary, number: usize) -> (r: String)
    requires
        has_date(pr@.updated_at),
    ensures
        r@ == entry_text(pr@, number as int),
{
    let date = match slice_bytes(pr.updated_at.as_str(), 0, 10) {
        Some(date) => date,
        None => String::new(),
    };
    let mut out = String::new();
    out.append("  ");
    out.append(decimal_usize(number).as_str());
    out.append(". ");
    out.append(pr.pr_key().as_str());
    out.append("  ");
    out.append(pr.title.as_str());
    out.append("\n     URL: ");
    out.append(pr.url.as_str());
    out.append("\n     Author: ");
    out.append(pr.author.as_str());
    out.append(" | Updated: ");
    out.append(date.as_str());
    out.append("\n     Requested: ");
    out.append(requested_text(pr, "(なし)").as_str());
    out.append("\n     My review: ");
    out.append(mine_text(pr).as_str());
    out.append(" | Others: ");
    out.append(list_others(&pr.other_latest_reviews).as_str());
    out.append("\n\n");
    assert(out@ =~= entry_text(pr@, number as int));
    out
}

fn print_group(
    prs: &Vec<PullRequestSummary>,
    status: ReviewStatus,
    label: &str,
    description: &str,
    first: usize,
) -> (r: (String, usize))
    requires
        forall|i: int| 0 <= i < prs@.len() ==> has_date((#[trigger] prs@[i])@.updated_at),
        first + with_status(pr_models(prs@), status).len() <= usize::MAX,
    ensures
        r.0@ == group_text(pr_models(prs@), status, label@, description@, first as int),
        r.1 == first + with_status(pr_models(prs@), status).len(),
{
    let ghost all = pr_models(prs@);
    let ghost keep = |p: PullRequestModel| p.status() == status;
    let ghost group = with_status(all, status);
    let mut entries = String::new();
    let mut count: usize = 0;
    reveal(Seq::filter);
    assert(all.take(0).filter(keep) =~= Seq::empty());
    assert(entries@ =~= Seq::empty());
    for i in 0..prs.len()
        invariant
            forall|j: int| 0 <= j < prs@.len() ==> has_date((#[trigger] prs@[j])@.updated_at),
            all == pr_models(prs@),
            keep == (|p: PullRequestModel| p.status() == status),
            group == all.filter(keep),
            first + group.len() <= usize::MAX,
            count == all.take(i as int).filter(keep).len(),
            entries@ == entries_text(all.take(i as int).filter(keep), first as int),
    {
        reveal(Seq::filter);
        let ghost had = all.take(i as int).filter(keep);
        proof {
            assert(all.take(i + 1).drop_last() =~= all.take(i as int));
            assert(all.take(i + 1).last() == prs@[i as int]@);
        }
        if prs[i].review_status() == status {
            proof {
                let now = all.take(i + 1).filter(keep);
                assert(now == had.push(prs@[i as int]@));
                assert(now.drop_last() =~= had);
                lemma_filter_grows(all, keep, i + 1);
            }
            entries.append(print_entry(&prs[i], first + count).as_str());
            count += 1;
        }
    }
    assert(all.take(all.len() as int) =~= all);
    if count == 0 {
        return (String::new(), first);
    }
    let mut out = String::new();
    out.append("[");
    out.append(label);
    out.append("] ");
    out.append(description);
    out.append(": ");
    out.append(decimal_usize(count).as_str());
    out.append("件\n\n");
    out.append(entries.as_str());
    assert(out@ =~= group_text(all, status, label@, description@, first as int));
    (out, first + count)
}

/// What is kept of the first `n` is no more than what is kept of all.
proof fn lemma_filter_grows<A>(list: Seq<A>, keep: spec_fn(A) -> bool, n: int)
    requires
        0 <= n <= list.len(),
    ensures
        list.take(n).filter(keep).len() <= list.filter(keep).len(),
    decreases list.len() - n,
{
    reveal(Seq::filter);
    if n < list.len() {
        assert(list.take(n + 1).drop_last() =~= list.take(n));
        lemma_filter_grows(list, keep, n + 1);
    } else {
        assert(list.take(n) =~= list);
    }
}

/// The PRs of the four statuses are no more than all PRs.
proof fn lemma_statuses_part(prs: Seq<PullRequestModel>)
    ensures
        with_status(prs, ReviewStatus::RequestedUntouched).len() + with_status(
            prs,
            ReviewStatus::RequestedOthersReviewed,
        ).len() + with_status(prs, ReviewStatus::Reviewed).len() + with_status(
            prs,
            ReviewStatus::Other,
        ).len() == prs.len(),
    decreases prs.len(),
{
    reveal(Seq::filter);
    if prs.len() > 0 {
        lemma_statuses_part(prs.drop_last());
    }
}

/// The list of PRs as text.
pub fn print_status_text(login: &str, prs: &Vec<PullRequestSummary>) -> (r: String)
    requires
        prs@.len() < usize::MAX,
        forall|i: int| 0 <= i < prs@.len() ==> has_date((#[trigger] prs@[i])@.updated_at),
    ensures
        r@ == status_text(login@, pr_models(prs@)),
{
    proof {
        lemma_statuses_part(pr_models(prs@));
    }
    let head = cat3("=== gh-review-insight status (login: ", login, ") ===\n\n");
    let (waiting, second) = print_group(
        prs,
        ReviewStatus::RequestedUntouched,
        "waiting",
        "要レビュー・誰もまだレビューしていない",
        1,
    );
    let (should, third) = print_group(
        prs,
        ReviewStatus::RequestedOthersReviewed,
        "should",
        "要レビュー・誰かがレビュー済み",
        second,
    );
    let (reviewed, fourth) = print_group(
        prs,
        ReviewStatus::Reviewed,
        "reviewed",
        "レビュー済み",
        third,
    );
    let (other, _) = print_group(prs, ReviewStatus::Other, "other", "その他", fourth);
    let start = cat3(head.as_str(), waiting.as_str(), should.as_str());
    cat3(start.as_str(), reviewed.as_str(), other.as_str())
}

/// Each PR stands in exactly one group of the list.
pub proof fn law_groups_cover(prs: Seq<PullRequestModel>)
    ensures
        with_status(prs, ReviewStatus::RequestedUntouched).len() + with_status(
            prs,
            ReviewStatus::RequestedOthersReviewed,
        ).len() + with_status(prs, ReviewStatus::Reviewed).len() + with_status(
            prs,
            ReviewStatus::Other,
        ).len() == prs.len(),
        forall|i: int|
            0 <= i < prs.len() ==> with_status(prs, (#[trigger] prs[i]).status()).contains(prs[i]),
{
    lemma_statuses_part(prs);
    assert forall|i: int| 0 <= i < prs.len() implies with_status(
        prs,
        (#[trigger] prs[i]).status(),
    ).contains(prs[i]) by {
        let status = prs[i].status();
        prs.lemma_filter_contains(|p: PullRequestModel| p.status() == status, i);
    }
}

/// A review with its author as JSON.
pub open spec fn other_value(review: ReviewModel) -> JsonModel {
    JsonModel::Object(
        seq![
            Member { name: "author"@, value: JsonModel::Text(review.author) },
            Member { name: "state"@, value: JsonModel::Text(short_form(review.state)) },
            Member { name: "submitted_at"@, value: JsonModel::Text(review.submitted_at) },
        ],
    )
}

/// The viewer's own review as JSON; null for none.
pub open spec fn own_value(review: Option<ReviewModel>) -> JsonModel {
    match review {
        Some(review) => JsonModel::Object(
            seq![
                Member { name: "state"@, value: JsonModel::Text(short_form(review.state)) },
                Member { name: "submitted_at"@, value: JsonModel::Text(review.submitted_at) },
            ],
        ),
        None => JsonModel::Null,
    }
}

/// A PR as JSON.
pub open spec fn pr_value(pr: PullRequestModel) -> JsonModel {
    JsonModel::Object(
        seq![
            Member { name: "author"@, value: JsonModel::Text(pr.author) },
            Member { name: "my_latest_review"@, value: own_value(pr.my_latest_review) },
            Member { name: "number"@, value: JsonModel::Int(pr.number) },
            Member {
                name: "other_reviews"@,
                value: JsonModel::Array(
                    pr.other_latest_reviews.map_values(|r: ReviewModel| other_value(r)),
                ),
            },
            Member { name: "repository"@, value: JsonModel::Text(pr.repository) },
            Member { name: "requested_reviewers"@, value: text_array(pr.requested_reviewers) },
            Member { name: "status"@, value: JsonModel::Text(pr.status().label_text()) },
            Member { name: "title"@, value: JsonModel::Text(pr.title) },
            Member { name: "updated_at"@, value: JsonModel::Text(pr.updated_at) },
            Member { name: "url"@, value: JsonModel::Text(pr.url) },
        ],
    )
}

/// The list of PRs as JSON.
pub open spec fn status_value(login: Seq<char>, prs: Seq<PullRequestModel>) -> JsonModel {
    JsonModel::Object(
        seq![
            Member { name: "login"@, value: JsonModel::Text(login) },
            Member {
                name: "pull_requests"@,
                value: JsonModel::Array(prs.map_values(|p: PullRequestModel| pr_value(p))),
            },
        ],
    )
}

/// Names that go up step by step go up.
proof fn lemma_names_go_up(members: Seq<Member>)
    requires
        forall|i: int|
            #![trigger members[i]]
            0 <= i && i + 1 < members.len() ==> before(members[i].name, members[i + 1].name),
    ensures
        names_increase(members),
{
    assert forall|i: int, j: int| 0 <= i < j < members.len() implies before(
        (#[trigger] members[i]).name,
        (#[trigger] members[j]).name,
    ) by {
        lemma_goes_up(members, i, j);
    }
}

proof fn lemma_goes_up(members: Seq<Member>, i: int, j: int)
    requires
        forall|i: int|
            #![trigger members[i]]
            0 <= i && i + 1 < members.len() ==> before(members[i].name, members[i + 1].name),
        0 <= i < j < members.len(),
    ensures
        before(members[i].name, members[j].name),
    decreases j - i,
{
    if i + 1 < j {
        lemma_goes_up(members, i, j - 1);
        let next = members[j - 1];
        assert(before(next.name, members[j].name));
        lemma_transitive(members[i].name, next.name, members[j].name);
    } else {
        assert(before(members[i].name, members[i + 1].name));
    }
}

proof fn lemma_other_orderly(review: ReviewModel)
    ensures
        orderly(other_value(review)),
{
    reveal_strlit("author");
    reveal_strlit("state");
    reveal_strlit("submitted_at");
    reveal_with_fuel(before, 3);
    reveal_with_fuel(orderly, 2);
    let members = other_value(review)->Object_0;
    lemma_names_go_up(members);
}

proof fn lemma_own_orderly(review: Option<ReviewModel>)
    ensures
        orderly(own_value(review)),
{
    reveal_strlit("state");
    reveal_strlit("submitted_at");
    reveal_with_fuel(before, 3);
    reveal_with_fuel(orderly, 2);
    if let Some(r) = review {
        let members = own_value(review)->Object_0;
        lemma_names_go_up(members);
    }
}

proof fn lemma_pr_names()
    ensures
        before("author"@, "my_latest_review"@),
        before("my_latest_review"@, "number"@),
        before("number"@, "other_reviews"@),
        before("other_reviews"@, "repository"@),
        before("repository"@, "requested_reviewers"@),
        before("requested_reviewers"@, "status"@),
        before("status"@, "title"@),
        before("title"@, "updated_at"@),
        before("updated_at"@, "url"@),
        before("login"@, "pull_requests"@),
{
    reveal_strlit("author");
    reveal_strlit("my_latest_review");
    reveal_strlit("number");
    reveal_strlit("other_reviews");
    reveal_strlit("repository");
    reveal_strlit("requested_reviewers");
    reveal_strlit("status");
    reveal_strlit("title");
    reveal_strlit("updated_at");
    reveal_strlit("url");
    reveal_strlit("login");
    reveal_strlit("pull_requests");
    reveal_with_fuel(before, 4);
}

proof fn lemma_pr_orderly(pr: PullRequestModel)
    ensures
        orderly(pr_value(pr)),
{
    let members = pr_value(pr)->Object_0;
    lemma_pr_names();
    lemma_names_go_up(members);
    lemma_own_orderly(pr.my_latest_review);
    let others = pr.other_latest_reviews.map_values(|r: ReviewModel| other_value(r));
    assert forall|i: int| 0 <= i < others.len() implies orderly(#[trigger] others[i]) by {
        lemma_other_orderly(pr.other_latest_reviews[i]);
    }
    assert(orderly(JsonModel::Array(others)));
    let names = text_array(pr.requested_reviewers)->Array_0;
    assert forall|i: int| 0 <= i < names.len() implies orderly(#[trigger] names[i]) by {}
    assert(orderly(text_array(pr.requested_reviewers)));
    assert forall|i: int| 0 <= i < members.len() implies orderly((#[trigger] members[i]).value) by {}
}

proof fn lemma_status_orderly(login: Seq<char>, prs: Seq<PullRequestModel>)
    ensures
        orderly(status_value(login, prs)),
{
    let members = status_value(login, prs)->Object_0;
    lemma_pr_names();
    lemma_names_go_up(members);
    let items = prs.map_values(|p: PullRequestModel| pr_value(p));
    assert forall|i: int| 0 <= i < items.len() implies orderly(#[trigger] items[i]) by {
        lemma_pr_orderly(prs[i]);
    }
    assert(orderly(JsonModel::Array(items)));
    assert forall|i: int| 0 <= i < members.len() implies orderly((#[trigger] members[i]).value) by {}
}

fn other_json(review: &ReviewSummary) -> (r: Json)
    ensures
        r@ == other_value(review@),
{
    let members = vec![
        named("author", text_value(review.author.as_str())),
        named("state", text_value(short_state(review.state.as_str()).as_str())),
        named("submitted_at", text_value(review.submitted_at.as_str())),
    ];
    assert(named_values(members@) =~= other_value(review@)->Object_0);
    object_value(members)
}

fn own_json(review: &Option<ReviewSummary>) -> (r: Json)
    ensures
        r@ == own_value(crate::model::review_in(*review)),
{
    match review {
        Some(review) => {
            let members = vec![
                named("state", text_value(short_state(review.state.as_str()).as_str())),
                named("submitted_at", text_value(review.submitted_at.as_str())),
            ];
            assert(named_values(members@) =~= own_value(Some(review@))->Object_0);
            object_value(members)
        },
        None => Json::Null,
    }
}

fn others_json(reviews: &Vec<ReviewSummary>) -> (r: Json)
    ensures
        r@ == JsonModel::Array(review_models(reviews@).map_values(|r: ReviewModel| other_value(r))),
{
    let ghost want = review_models(reviews@).map_values(|r: ReviewModel| other_value(r));
    let mut items: Vec<Json> = Vec::new();
    for i in 0..reviews.len()
        invariant
            want == review_models(reviews@).map_values(|r: ReviewModel| other_value(r)),
            values(items@) == want.take(i as int),
    {
        let ghost earlier = values(items@);
        let item = other_json(&reviews[i]);
        let ghost it = item@;
        items.push(item);
        assert(want[i as int] == it);
        assert(values(items@) =~= earlier.push(it));
        assert(want.take(i + 1) =~= earlier.push(it));
    }
    assert(want.take(want.len() as int) =~= want);
    array_value(items)
}

fn int_json(n: i64) -> (r: Json)
    ensures
        r@ == JsonModel::Int(n as int),
{
    Json::Int(n)
}

fn pr_json(pr: &PullRequestSummary) -> (r: Json)
    ensures
        r@ == pr_value(pr@),
{
    let members = vec![
        named("author", text_value(pr.author.as_str())),
        named("my_latest_review", own_json(&pr.my_latest_review)),
        named("number", int_json(pr.number)),
        named("other_reviews", others_json(&pr.other_latest_reviews)),
        named("repository", text_value(pr.repository.as_str())),
        named("requested_reviewers", text_array_of(&pr.requested_reviewers)),
        named("status", text_value(pr.review_status().label())),
        named("title", text_value(pr.title.as_str())),
        named("updated_at", text_value(pr.updated_at.as_str())),
        named("url", text_value(pr.url.as_str())),
    ];
    assert(named_values(members@) =~= pr_value(pr@)->Object_0);
    object_value(members)
}

/// The list of PRs as JSON.
pub fn status_json(login: &str, prs: &Vec<PullRequestSummary>) -> (r: Json)
    ensures
        r@ == status_value(login@, pr_models(prs@)),
{
    let ghost want = pr_models(prs@).map_values(|p: PullRequestModel| pr_value(p));
    let mut items: Vec<Json> = Vec::new();
    for i in 0..prs.len()
        invariant
            want == pr_models(prs@).map_values(|p: PullRequestModel| pr_value(p)),
            values(items@) == want.take(i as int),
    {
        let ghost earlier = values(items@);
        let item = pr_json(&prs[i]);
        let ghost it = item@;
        items.push(item);
        assert(want[i as int] == it);
        assert(values(items@) =~= earlier.push(it));
        assert(want.take(i + 1) =~= earlier.push(it));
    }
    assert(want.take(want.len() as int) =~= want);
    let members = vec![
        named("login", text_value(login)),
        named("pull_requests", array_value(items)),
    ];
    assert(named_values(members@) =~= status_value(login@, pr_models(prs@))->Object_0);
    object_value(members)
}

/// The list of PRs as indented JSON text.
pub fn print_status_json(login: &str, prs: &Vec<PullRequestSummary>) -> (r: String)
    ensures
        r@ == rendered(status_value(login@, pr_models(prs@))),
{
    let json = status_json(login, prs);
    proof {
        lemma_status_orderly(login@, pr_models(prs@));
    }
    render_json(&json)
}

/// Review statistics of a time window. The share of the viewer's own reviews is a
/// fraction, which is formatted by the caller.
#[derive(Clone, Debug)]
pub struct Stats {
    pub own_review_submissions: usize,
    pub unique_prs_reviewed: usize,
    pub reviews_on_touched_prs: usize,
    pub prs_with_other_reviewers: usize,
    pub approved: usize,
    pub changes_requested: usize,
    pub commented: usize,
    pub dismissed: usize,
    pub candidate_prs: usize,
    /// RFC3339 window bounds (UTC).
    pub since: String,
    pub until: String,
}

impl Default for Stats {
    fn default() -> (r: Stats)
        ensures
            r.own_review_submissions == 0,
            r.unique_prs_reviewed == 0,
            r.reviews_on_touched_prs == 0,
            r.prs_with_other_reviewers == 0,
            r.approved == 0,
            r.changes_requested == 0,
            r.commented == 0,
            r.dismissed == 0,
            r.candidate_prs == 0,
            r.since@ == Seq::<char>::empty(),
            r.until@ == Seq::<char>::empty(),
    {
        Stats {
            own_review_submissions: 0,
            unique_prs_reviewed: 0,
            reviews_on_touched_prs: 0,
            prs_with_other_reviewers: 0,
            approved: 0,
            changes_requested: 0,
            commented: 0,
            dismissed: 0,
            candidate_prs: 0,
            since: String::new(),
            until: String::new(),
        }
    }
}

/// A line of the statistics: what it is about, and its value.
pub struct StatsRow {
    pub title: String,
    pub value: String,
}

/// What a line of the statistics is.
#[verifier::ext_equal]
pub struct RowModel {
    pub title: Seq<char>,
    pub value: Seq<char>,
}

impl View for StatsRow {
    type V = RowModel;

    open spec fn view(&self) -> RowModel {
        RowModel { title: self.title@, value: self.value@ }
    }
}

/// The lines of a list.
pub open spec fn row_models(rows: Seq<StatsRow>) -> Seq<RowModel> {
    rows.map_values(|r: StatsRow| r@)
}

/// The statistics line by line, given the texts of the window's bounds and of the
/// viewer's share in percent.
pub open spec fn stats_rows(
    stats: Stats,
    since: Seq<char>,
    until: Seq<char>,
    share: Seq<char>,
) -> Seq<RowModel> {
    seq![
        RowModel { title: "期間"@, value: since + " 〜 "@ + until },
        RowModel {
            title: "レビュー提出数"@,
            value: decimal_nat(stats.own_review_submissions as nat),
        },
        RowModel {
            title: "レビューしたPR数"@,
            value: decimal_nat(stats.unique_prs_reviewed as nat),
        },
        RowModel {
            title: "対象PR上の全レビュー数"@,
            value: decimal_nat(stats.reviews_on_touched_prs as nat),
        },
        RowModel { title: "自分の割合"@, value: share + "%"@ },
        RowModel {
            title: "他レビュワーもいたPR数"@,
            value: decimal_nat(stats.prs_with_other_reviewers as nat),
        },
        RowModel {
            title: "状態内訳"@,
            value: "approved "@ + decimal_nat(stats.approved as nat) + " / changes "@
                + decimal_nat(stats.changes_requested as nat) + " / comment "@ + decimal_nat(
                stats.commented as nat,
            ) + " / dismissed "@ + decimal_nat(stats.dismissed as nat),
        },
        RowModel { title: "候補PR数"@, value: decimal_nat(stats.candidate_prs as nat) },
    ]
}

fn row(title: &str, value: String) -> (r: StatsRow)
    ensures
        r@ == (RowModel { title: title@, value: value@ }),
{
    StatsRow { title: title.to_owned(), value }
}

/// The statistics line by line.
pub fn list_stats(stats: &Stats, since: &str, until: &str, share: &str) -> (r: Vec<StatsRow>)
    ensures
        row_models(r@) == stats_rows(*stats, since@, until@, share@),
{
    let mut states = String::new();
    states.append("approved ");
    states.append(decimal_usize(stats.approved).as_str());
    states.append(" / changes ");
    states.append(decimal_usize(stats.changes_requested).as_str());
    states.append(" / comment ");
    states.append(decimal_usize(stats.commented).as_str());
    states.append(" / dismissed ");
    states.append(decimal_usize(stats.dismissed).as_str());
    let rows = vec![
        row("期間", cat3(since, " 〜 ", until)),
        row("レビュー提出数", decimal_usize(stats.own_review_submissions)),
        row("レビューしたPR数", decimal_usize(stats.unique_prs_reviewed)),
        row("対象PR上の全レビュー数", decimal_usize(stats.reviews_on_touched_prs)),
        row("自分の割合", cat(share, "%")),
        row("他レビュワーもいたPR数", decimal_usize(stats.prs_with_other_reviewers)),
        row("状態内訳", states),
        row("候補PR数", decimal_usize(stats.candidate_prs)),
    ];
    assert(row_models(rows@) =~= stats_rows(*stats, since@, until@, share@));
    rows
}

/// Lines as `title: value`.
pub open spec fn rows_text(rows: Seq<RowModel>) -> Seq<char>
    decreases rows.len(),
{
    if rows.len() == 0 {
        Seq::empty()
    } else {
        rows_text(rows.drop_last()) + rows.last().title + ": "@ + rows.last().value + "\n"@
    }
}

/// The statistics as text: a head line, then the lines, with the bounds of the window
/// by their days.
pub open spec fn stats_text(login: Seq<char>, stats: Stats, share: Seq<char>) -> Seq<char> {
    let rows = stats_rows(
        stats,
        byte_slice(stats.since@, 0, 10)->0,
        byte_slice(stats.until@, 0, 10)->0,
        share,
    );
    "=== gh-review-insight stats (login: "@ + login + ") ===\n\n"@ + rows_text(rows)
}

/// The statistics as text.
pub fn print_stats_text(login: &str, stats: &Stats, share: &str) -> (r: String)
    requires
        has_date(stats.since@),
        has_date(stats.until@),
    ensures
        r@ == "=== gh-review-insight stats (login: "@ + login@ + ") ===\n\n"@ + rows_text(
            stats_rows(
                *stats,
                byte_slice(stats.since@, 0, 10)->0,
                byte_slice(stats.until@, 0, 10)->0,
                share@,
            ),
        ),
        r@ == stats_text(login@, *stats, share@),
{
    let since = match slice_bytes(stats.since.as_str(), 0, 10) {
        Some(date) => date,
        None => String::new(),
    };
    let until = match slice_bytes(stats.until.as_str(), 0, 10) {
        Some(date) => date,
        None => String::new(),
    };
    let rows = list_stats(stats, since.as_str(), until.as_str(), share);
    let head = cat3("=== gh-review-insight stats (login: ", login, ") ===\n\n");
    let ghost all = row_models(rows@);
    let mut lines = String::new();
    assert(lines@ =~= Seq::empty());
    for i in 0..rows.len()
        invariant
            all == row_models(rows@),
            lines@ == rows_text(all.take(i as int)),
    {
        proof {
            assert(all.take(i + 1).drop_last() =~= all.take(i as int));
            assert(all.take(i + 1).last() == rows@[i as int]@);
        }
        lines.append(rows[i].title.as_str());
        lines.append(": ");
        lines.append(rows[i].value.as_str());
        lines.append("\n");
    }
    assert(all.take(all.len() as int) =~= all);
    cat(head.as_str(), lines.as_str())
}

/// The titles of the lines of the statistics.
pub open spec fn stats_titles() -> Seq<Seq<char>> {
    seq![
        "期間"@,
        "レビュー提出数"@,
        "レビューしたPR数"@,
        "対象PR上の全レビュー数"@,
        "自分の割合"@,
        "他レビュワーもいたPR数"@,
        "状態内訳"@,
        "候補PR数"@,
    ]
}

/// Each line of the statistics has a title of its own, and its value is the number
/// that the title speaks of, in decimal: how many reviews were submitted, how many
/// pull requests were reviewed, how many reviews those have in all, how many of them
/// others have reviewed too, and how many were candidates. The states stand in one line,
/// each with its own number.
pub proof fn law_stats_lines(
    stats: Stats,
    since: Seq<char>,
    until: Seq<char>,
    share: Seq<char>,
    i: int,
)
    requires
        0 <= i < stats_rows(stats, since, until, share).len(),
    ensures
        ({
            let rows = stats_rows(stats, since, until, share);
            let line = rows[i];
            &&& rows.map_values(|r: RowModel| r.title) == stats_titles()
            &&& line.title == "レビュー提出数"@ ==> line.value == decimal_nat(
                stats.own_review_submissions as nat,
            )
            &&& line.title == "レビューしたPR数"@ ==> line.value == decimal_nat(
                stats.unique_prs_reviewed as nat,
            )
            &&& line.title == "対象PR上の全レビュー数"@ ==> line.value == decimal_nat(
                stats.reviews_on_touched_prs as nat,
            )
            &&& line.title == "他レビュワーもいたPR数"@ ==> line.value == decimal_nat(
                stats.prs_with_other_reviewers as nat,
            )
            &&& line.title == "候補PR数"@ ==> line.value == decimal_nat(stats.candidate_prs as nat)
            &&& line.title == "自分の割合"@ ==> line.value == share.push('%')
            &&& line.title == "期間"@ ==> line.value == joined(seq![since, until], " 〜 "@)
            &&& line.title == "状態内訳"@ ==> line.value == joined(
                seq![
                    "approved "@ + decimal_nat(stats.approved as nat),
                    "changes "@ + decimal_nat(stats.changes_requested as nat),
                    "comment "@ + decimal_nat(stats.commented as nat),
                    "dismissed "@ + decimal_nat(stats.dismissed as nat),
                ],
                " / "@,
            )
        }),
{
    let rows = stats_rows(stats, since, until, share);
    assert(rows.map_values(|r: RowModel| r.title) =~= stats_titles());
    lemma_titles_differ();
    reveal_strlit("%");
    assert(share + "%"@ =~= share.push('%'));
    lemma_joined_two(since, until, " 〜 "@);
    let a = "approved "@ + decimal_nat(stats.approved as nat);
    let b = "changes "@ + decimal_nat(stats.changes_requested as nat);
    let c = "comment "@ + decimal_nat(stats.commented as nat);
    let d = "dismissed "@ + decimal_nat(stats.dismissed as nat);
    let sep = " / "@;
    lemma_joined_four(a, b, c, d, sep);
    lemma_state_seps();
    assert(rows[6].value =~= a + sep + b + sep + c + sep + d);
    assert(stats_titles()[i] == rows[i].title);
}

proof fn lemma_state_seps()
    ensures
        " / changes "@ == " / "@ + "changes "@,
        " / comment "@ == " / "@ + "comment "@,
        " / dismissed "@ == " / "@ + "dismissed "@,
{
    reveal_strlit(" / ");
    reveal_strlit(" / changes ");
    reveal_strlit(" / comment ");
    reveal_strlit(" / dismissed ");
    reveal_strlit("changes ");
    reveal_strlit("comment ");
    reveal_strlit("dismissed ");
    assert(" / changes "@ =~= " / "@ + "changes "@);
    assert(" / comment "@ =~= " / "@ + "comment "@);
    assert(" / dismissed "@ =~= " / "@ + "dismissed "@);
}

proof fn lemma_joined_two(a: Seq<char>, b: Seq<char>, sep: Seq<char>)
    ensures
        joined(seq![a, b], sep) == a + sep + b,
{
    reveal_with_fuel(joined, 2);
    assert(seq![a, b].drop_last() =~= seq![a]);
}

proof fn lemma_joined_four(
    a: Seq<char>,
    b: Seq<char>,
    c: Seq<char>,
    d: Seq<char>,
    sep: Seq<char>,
)
    ensures
        joined(seq![a, b, c, d], sep) == a + sep + b + sep + c + sep + d,
{
    reveal_with_fuel(joined, 4);
    assert(seq![a, b, c, d].drop_last() =~= seq![a, b, c]);
    assert(seq![a, b, c].drop_last() =~= seq![a, b]);
    assert(seq![a, b].drop_last() =~= seq![a]);
}

/// No two lines have the same title.
proof fn lemma_titles_differ()
    ensures
        forall|i: int, j: int|
            0 <= i < j < stats_titles().len() ==> #[trigger] stats_titles()[i]
                != #[trigger] stats_titles()[j],
{
    reveal_strlit("期間");
    reveal_strlit("レビュー提出数");
    reveal_strlit("レビューしたPR数");
    reveal_strlit("対象PR上の全レビュー数");
    reveal_strlit("自分の割合");
    reveal_strlit("他レビュワーもいたPR数");
    reveal_strlit("状態内訳");
    reveal_strlit("候補PR数");
    assert("期間"@.len() == 2 && "レビュー提出数"@.len() == 7 && "レビューしたPR数"@.len() == 9);
    assert("対象PR上の全レビュー数"@.len() == 12 && "自分の割合"@.len() == 5);
    assert("他レビュワーもいたPR数"@.len() == 12 && "状態内訳"@.len() == 4 && "候補PR数"@.len() == 5);
    assert("対象PR上の全レビュー数"@[0] != "他レビュワーもいたPR数"@[0]);
    assert("自分の割合"@[0] != "候補PR数"@[0]);
}

/// A line of the statistics depends on what it speaks of alone: statistics that agree
/// in a number have the same line for it, whatever else they differ in.
pub proof fn law_stats_lines_apart(
    a: Stats,
    b: Stats,
    since: Seq<char>,
    until: Seq<char>,
    share: Seq<char>,
    i: int,
)
    requires
        0 <= i < stats_titles().len(),
    ensures
        ({
            let x = stats_rows(a, since, until, share)[i];
            let y = stats_rows(b, since, until, share)[i];
            &&& x.title == y.title
            &&& x.title == "レビュー提出数"@ ==> (a.own_review_submissions
                == b.own_review_submissions <==> x == y)
            &&& x.title == "レビューしたPR数"@ ==> (a.unique_prs_reviewed == b.unique_prs_reviewed
                <==> x == y)
            &&& x.title == "対象PR上の全レビュー数"@ ==> (a.reviews_on_touched_prs
                == b.reviews_on_touched_prs <==> x == y)
            &&& x.title == "他レビュワーもいたPR数"@ ==> (a.prs_with_other_reviewers
                == b.prs_with_other_reviewers <==> x == y)
            &&& x.title == "候補PR数"@ ==> (a.candidate_prs == b.candidate_prs <==> x == y)
            &&& x.title == "期間"@ || x.title == "自分の割合"@ ==> x == y
        }),
{
    law_stats_lines(a, since, until, share, i);
    law_stats_lines(b, since, until, share, i);
    lemma_titles_differ();
    lemma_decimal_tells(a.own_review_submissions as nat, b.own_review_submissions as nat);
    lemma_decimal_tells(a.unique_prs_reviewed as nat, b.unique_prs_reviewed as nat);
    lemma_decimal_tells(a.reviews_on_touched_prs as nat, b.reviews_on_touched_prs as nat);
    lemma_decimal_tells(a.prs_with_other_reviewers as nat, b.prs_with_other_reviewers as nat);
    lemma_decimal_tells(a.candidate_prs as nat, b.candidate_prs as nat);
    let x = stats_rows(a, since, until, share);
    let y = stats_rows(b, since, until, share);
    assert(x.map_values(|r: RowModel| r.title)[i] == stats_titles()[i]);
    assert(y.map_values(|r: RowModel| r.title)[i] == stats_titles()[i]);
}

/// Different numbers have different decimal texts.
proof fn lemma_decimal_tells(a: nat, b: nat)
    ensures
        decimal_nat(a) == decimal_nat(b) ==> a == b,
{
    crate::number::lemma_value_of_decimal(a);
    crate::number::lemma_value_of_decimal(b);
}

/// The statistics are printed line by line, each as `title: value`.
pub proof fn law_lines_printed(a: Seq<RowModel>, b: Seq<RowModel>, line: RowModel)
    ensures
        rows_text(seq![line]) == line.title + ": "@ + line.value + "\n"@,
        rows_text(a + b) == rows_text(a) + rows_text(b),
    decreases b.len(),
{
    reveal_with_fuel(rows_text, 2);
    assert(seq![line].drop_last() =~= Seq::empty());
    assert(rows_text(seq![line]) =~= line.title + ": "@ + line.value + "\n"@);
    if b.len() > 0 {
        law_lines_printed(a, b.drop_last(), line);
        assert((a + b).drop_last() =~= a + b.drop_last());
        assert(rows_text(a + b) =~= rows_text(a) + rows_text(b));
    } else {
        assert(a + b =~= a);
        assert(rows_text(a) + Seq::<char>::empty() =~= rows_text(a));
    }
}

/// The first argument after the program says what is asked for: the list, the
/// statistics, or else the window. The list and the statistics are JSON where one of
/// the arguments asks for it.
pub proof fn law_command(args: Seq<Seq<char>>)
    ensures
        command_in(args) is Status <==> args.len() >= 2 && args[1] == "status"@,
        command_in(args) is Stats <==> args.len() >= 2 && args[1] == "stats"@,
        command_in(args) matches Command::Status { json } ==> (json <==> exists|i: int|
            1 <= i < args.len() && #[trigger] args[i] == "--json"@),
        command_in(args) matches Command::Stats { json } ==> (json <==> exists|i: int|
            1 <= i < args.len() && #[trigger] args[i] == "--json"@),
{
    reveal_strlit("status");
    reveal_strlit("stats");
    assert("status"@.len() == 6 && "stats"@.len() == 5);
    let rest = args.skip(1);
    if args.len() >= 2 && rest.contains("--json"@) {
        let k = choose|k: int| 0 <= k < rest.len() && rest[k] == "--json"@;
        assert(args[k + 1] == "--json"@);
    }
    if exists|i: int| 1 <= i < args.len() && #[trigger] args[i] == "--json"@ {
        let i = choose|i: int| 1 <= i < args.len() && #[trigger] args[i] == "--json"@;
        assert(rest[i - 1] == "--json"@);
    }
}

/// The pull requests that are shown are those that no link hides, in order.
pub proof fn law_shown(prs: Seq<PullRequestModel>, excludes: Seq<Seq<char>>)
    ensures
        ({
            let shown = not_hidden(prs, excludes);
            exists|places: Seq<int>|
                {
                    &&& #[trigger] goes_up(places)
                    &&& forall|k: int| #[trigger]
                        places.contains(k) <==> 0 <= k < prs.len() && !excluded(
                            prs[k].url,
                            excludes,
                        )
                    &&& shown.len() == places.len()
                    &&& forall|i: int|
                        0 <= i < shown.len() ==> #[trigger] shown[i] == prs[places[i]]
                }
        }),
{
    let keep = |p: PullRequestModel| !excluded(p.url, excludes);
    let places = lemma_filter_places(prs, keep);
    assert(not_hidden(prs, excludes) == prs.filter(keep));
    assert forall|k: int| #[trigger] places.contains(k) <==> 0 <= k < prs.len() && !excluded(
        prs[k].url,
        excludes,
    ) by {
        assert(keep(prs[k]) == !excluded(prs[k].url, excludes));
    }
    assert(goes_up(places));
}

/// Whether a list holds the pull requests at the places where `wanted` is set, in
/// order.
pub open spec fn is_part(
    group: Seq<PullRequestModel>,
    prs: Seq<PullRequestModel>,
    wanted: spec_fn(PullRequestModel) -> bool,
) -> bool {
    exists|places: Seq<int>|
        {
            &&& #[trigger] goes_up(places)
            &&& forall|k: int| #[trigger]
                places.contains(k) <==> 0 <= k < prs.len() && wanted(prs[k])
            &&& group.len() == places.len()
            &&& forall|i: int| 0 <= i < group.len() ==> #[trigger] group[i] == prs[places[i]]
        }
}

proof fn lemma_group(prs: Seq<PullRequestModel>, status: ReviewStatus)
    ensures
        is_part(with_status(prs, status), prs, |p: PullRequestModel| p.status() == status),
{
    let keep = |p: PullRequestModel| p.status() == status;
    let places = lemma_filter_places(prs, keep);
    assert(with_status(prs, status) == prs.filter(keep));
    assert(goes_up(places));
}

/// A section of the list: its title, what it holds and how many, and the entries;
/// nothing where it holds none.
pub open spec fn section(title: Seq<char>, group: Seq<PullRequestModel>, first: nat) -> Seq<char> {
    if group.len() == 0 {
        Seq::empty()
    } else {
        title + ": "@ + decimal_nat(group.len()) + "件\n\n"@ + entries_text(
            group,
            first as int,
        )
    }
}

/// The list as text names the user and has four sections: those that wait for the
/// user's review, those that others have reviewed meanwhile, those that the user has
/// reviewed, and the rest. Each pull request stands in the section of its kind, and
/// the entries are numbered through from one.
pub proof fn law_list_printed(login: Seq<char>, prs: Seq<PullRequestModel>)
    ensures
        exists|
            a: Seq<PullRequestModel>,
            b: Seq<PullRequestModel>,
            c: Seq<PullRequestModel>,
            d: Seq<PullRequestModel>,
        |
            {
                &&& is_part(
                    a,
                    prs,
                    |p: PullRequestModel|
                        p.requested_for_user && (p.my_latest_review is Some
                            || p.other_latest_reviews.len() == 0),
                )
                &&& is_part(
                    b,
                    prs,
                    |p: PullRequestModel|
                        p.requested_for_user && p.my_latest_review is None
                            && p.other_latest_reviews.len() > 0,
                )
                &&& is_part(
                    c,
                    prs,
                    |p: PullRequestModel| !p.requested_for_user && p.my_latest_review is Some,
                )
                &&& is_part(
                    d,
                    prs,
                    |p: PullRequestModel| !p.requested_for_user && p.my_latest_review is None,
                )
                &&& status_text(login, prs) == "=== gh-review-insight status (login: "@ + login
                    + ") ===\n\n"@ + #[trigger] section(
                    "[waiting] 要レビュー・誰もまだレビューしていない"@,
                    a,
                    1,
                ) + #[trigger] section(
                    "[should] 要レビュー・誰かがレビュー済み"@,
                    b,
                    1 + a.len(),
                ) + #[trigger] section("[reviewed] レビュー済み"@, c, 1 + a.len() + b.len())
                    + #[trigger] section(
                    "[other] その他"@,
                    d,
                    1 + a.len() + b.len() + c.len(),
                )
            },
{
    let a = with_status(prs, ReviewStatus::RequestedUntouched);
    let b = with_status(prs, ReviewStatus::RequestedOthersReviewed);
    let c = with_status(prs, ReviewStatus::Reviewed);
    let d = with_status(prs, ReviewStatus::Other);
    lemma_group(prs, ReviewStatus::RequestedUntouched);
    lemma_group(prs, ReviewStatus::RequestedOthersReviewed);
    lemma_group(prs, ReviewStatus::Reviewed);
    lemma_group(prs, ReviewStatus::Other);
    assert forall|p: PullRequestModel| true implies {
        &&& (#[trigger] p.status() == ReviewStatus::RequestedUntouched) == (p.requested_for_user && (
        p.my_latest_review is Some || p.other_latest_reviews.len() == 0))
        &&& (p.status() == ReviewStatus::RequestedOthersReviewed) == (p.requested_for_user
            && p.my_latest_review is None && p.other_latest_reviews.len() > 0)
        &&& (p.status() == ReviewStatus::Reviewed) == (!p.requested_for_user
            && p.my_latest_review is Some)
        &&& (p.status() == ReviewStatus::Other) == (!p.requested_for_user
            && p.my_latest_review is None)
    } by {
        crate::model::law_status_classes(p);
    }
    lemma_same_part(
        a,
        prs,
        |p: PullRequestModel| p.status() == ReviewStatus::RequestedUntouched,
        |p: PullRequestModel|
            p.requested_for_user && (p.my_latest_review is Some || p.other_latest_reviews.len()
                == 0),
    );
    lemma_same_part(
        b,
        prs,
        |p: PullRequestModel| p.status() == ReviewStatus::RequestedOthersReviewed,
        |p: PullRequestModel|
            p.requested_for_user && p.my_latest_review is None && p.other_latest_reviews.len() > 0,
    );
    lemma_same_part(
        c,
        prs,
        |p: PullRequestModel| p.status() == ReviewStatus::Reviewed,
        |p: PullRequestModel| !p.requested_for_user && p.my_latest_review is Some,
    );
    lemma_same_part(
        d,
        prs,
        |p: PullRequestModel| p.status() == ReviewStatus::Other,
        |p: PullRequestModel| !p.requested_for_user && p.my_latest_review is None,
    );
    lemma_section_titles();
    let head = "=== gh-review-insight status (login: "@ + login + ") ===\n\n"@;
    let s1 = section("[waiting] 要レビュー・誰もまだレビューしていない"@, a, 1);
    let s2 = section("[should] 要レビュー・誰かがレビュー済み"@, b, 1 + a.len());
    let s3 = section("[reviewed] レビュー済み"@, c, 1 + a.len() + b.len());
    let s4 = section("[other] その他"@, d, 1 + a.len() + b.len() + c.len());
    assert(status_text(login, prs) =~= head + s1 + s2 + s3 + s4);
}

proof fn lemma_same_part(
    group: Seq<PullRequestModel>,
    prs: Seq<PullRequestModel>,
    f: spec_fn(PullRequestModel) -> bool,
    g: spec_fn(PullRequestModel) -> bool,
)
    requires
        is_part(group, prs, f),
        forall|p: PullRequestModel| #[trigger] f(p) == g(p),
    ensures
        is_part(group, prs, g),
{
    let places = choose|places: Seq<int>|
        {
            &&& #[trigger] goes_up(places)
            &&& forall|k: int| #[trigger] places.contains(k) <==> 0 <= k < prs.len() && f(prs[k])
            &&& group.len() == places.len()
            &&& forall|i: int| 0 <= i < group.len() ==> #[trigger] group[i] == prs[places[i]]
        };
    assert(goes_up(places));
    assert forall|k: int| #[trigger] places.contains(k) <==> 0 <= k < prs.len() && g(prs[k]) by {
        assert(f(prs[k]) == g(prs[k]));
    }
}

proof fn lemma_section_titles()
    ensures
        "["@ + "waiting"@ + "] "@ + "要レビュー・誰もまだレビューしていない"@
            == "[waiting] 要レビュー・誰もまだレビューしていない"@,
        "["@ + "should"@ + "] "@ + "要レビュー・誰かがレビュー済み"@
            == "[should] 要レビュー・誰かがレビュー済み"@,
        "["@ + "reviewed"@ + "] "@ + "レビュー済み"@ == "[reviewed] レビュー済み"@,
        "["@ + "other"@ + "] "@ + "その他"@ == "[other] その他"@,
{
    reveal_strlit("[");
    reveal_strlit("] ");
    reveal_strlit("waiting");
    reveal_strlit("should");
    reveal_strlit("reviewed");
    reveal_strlit("other");
    reveal_strlit("要レビュー・誰もまだレビューしていない");
    reveal_strlit("要レビュー・誰かがレビュー済み");
    reveal_strlit("レビュー済み");
    reveal_strlit("その他");
    reveal_strlit("[waiting] 要レビュー・誰もまだレビューしていない");
    reveal_strlit("[should] 要レビュー・誰かがレビュー済み");
    reveal_strlit("[reviewed] レビュー済み");
    reveal_strlit("[other] その他");
    assert("["@ + "waiting"@ + "] "@ + "要レビュー・誰もまだレビューしていない"@
        =~= "[waiting] 要レビュー・誰もまだレビューしていない"@);
    assert("["@ + "should"@ + "] "@ + "要レビュー・誰かがレビュー済み"@
        =~= "[should] 要レビュー・誰かがレビュー済み"@);
    assert("["@ + "reviewed"@ + "] "@ + "レビュー済み"@ =~= "[reviewed] レビュー済み"@);
    assert("["@ + "other"@ + "] "@ + "その他"@ =~= "[other] その他"@);
}

/// Entries stand one after the other, numbered on from the first. An entry has five
/// lines: the number, what the pull request is called and its title; its address;
/// its author and the day of its last update; who is asked; the user's own review and
/// those of others.
pub proof fn law_entries_printed(
    a: Seq<PullRequestModel>,
    b: Seq<PullRequestModel>,
    pr: PullRequestModel,
    n: nat,
)
    ensures
        entries_text(a + b, n as int) == entries_text(a, n as int) + entries_text(
            b,
            (n + a.len()) as int,
        ),
        entries_text(seq![pr], n as int) == joined(
            seq![
                "  "@ + decimal_nat(n) + ". "@ + pr.key() + "  "@ + pr.title,
                "     URL: "@ + pr.url,
                "     Author: "@ + pr.author + " | Updated: "@ + byte_slice(pr.updated_at, 0, 10)->0,
                "     Requested: "@ + requested_listed(pr),
                "     My review: "@ + own_label(pr) + " | Others: "@ + others_listed(
                    pr.other_latest_reviews,
                ),
            ],
            "\n"@,
        ) + "\n\n"@,
{
    lemma_entries_apart(a, b, n);
    lemma_entry_lines(pr, n);
    lemma_entry_alone(pr, n);
}

proof fn lemma_entry_alone(pr: PullRequestModel, n: nat)
    ensures
        entries_text(seq![pr], n as int) == entry_text(pr, n as int),
{
    reveal_with_fuel(entries_text, 2);
    assert(seq![pr].drop_last() =~= Seq::empty());
    assert(Seq::<char>::empty() + entry_text(pr, n as int) =~= entry_text(pr, n as int));
}

proof fn lemma_entries_apart(a: Seq<PullRequestModel>, b: Seq<PullRequestModel>, n: nat)
    ensures
        entries_text(a + b, n as int) == entries_text(a, n as int) + entries_text(
            b,
            (n + a.len()) as int,
        ),
    decreases b.len(),
{
    if b.len() > 0 {
        lemma_entries_apart(a, b.drop_last(), n);
        assert((a + b).drop_last() =~= a + b.drop_last());
        let last = entry_text(b.last(), n + a.len() + b.len() - 1);
        let x = entries_text(a, n as int);
        let y = entries_text(b.drop_last(), (n + a.len()) as int);
        assert(x + y + last =~= x + (y + last));
    } else {
        assert(a + b =~= a);
        assert(entries_text(a, n as int) + Seq::<char>::empty() =~= entries_text(a, n as int));
    }
}

proof fn lemma_entry_lines(pr: PullRequestModel, n: nat)
    ensures
        entry_text(pr, n as int) == joined(
            seq![
                "  "@ + decimal_nat(n) + ". "@ + pr.key() + "  "@ + pr.title,
                "     URL: "@ + pr.url,
                "     Author: "@ + pr.author + " | Updated: "@ + byte_slice(pr.updated_at, 0, 10)->0,
                "     Requested: "@ + requested_listed(pr),
                "     My review: "@ + own_label(pr) + " | Others: "@ + others_listed(
                    pr.other_latest_reviews,
                ),
            ],
            "\n"@,
        ) + "\n\n"@,
{
    let a = "  "@ + decimal_nat(n) + ". "@ + pr.key() + "  "@ + pr.title;
    let b = "     URL: "@ + pr.url;
    let c = "     Author: "@ + pr.author + " | Updated: "@ + byte_slice(pr.updated_at, 0, 10)->0;
    let d = "     Requested: "@ + requested_listed(pr);
    let e = "     My review: "@ + own_label(pr) + " | Others: "@ + others_listed(
        pr.other_latest_reviews,
    );
    let sep = "\n"@;
    lemma_joined_four(a, b, c, d, sep);
    crate::text::law_joined(seq![a, b, c, d], seq![e], e, sep);
    assert(seq![a, b, c, d] + seq![e] =~= seq![a, b, c, d, e]);
    lemma_line_starts();
    assert(entry_text(pr, n as int) =~= a + sep + b + sep + c + sep + d + sep + e + "\n\n"@);
}

proof fn lemma_line_starts()
    ensures
        "\n     URL: "@ == "\n"@ + "     URL: "@,
        "\n     Author: "@ == "\n"@ + "     Author: "@,
        "\n     Requested: "@ == "\n"@ + "     Requested: "@,
        "\n     My review: "@ == "\n"@ + "     My review: "@,
{
    reveal_strlit("\n");
    reveal_strlit("     URL: ");
    reveal_strlit("     Author: ");
    reveal_strlit("     Requested: ");
    reveal_strlit("     My review: ");
    reveal_strlit("\n     URL: ");
    reveal_strlit("\n     Author: ");
    reveal_strlit("\n     Requested: ");
    reveal_strlit("\n     My review: ");
    assert("\n     URL: "@ =~= "\n"@ + "     URL: "@);
    assert("\n     Author: "@ =~= "\n"@ + "     Author: "@);
    assert("\n     Requested: "@ =~= "\n"@ + "     Requested: "@);
    assert("\n     My review: "@ =~= "\n"@ + "     My review: "@);
}

/// Others' reviews are listed with their authors and states, and those asked for a
/// review by their names; where there are none, that is said.
pub proof fn law_people_listed(pr: PullRequestModel, r: ReviewModel)
    ensures
        others_listed(Seq::empty()) == "(なし)"@,
        others_listed(seq![r]) == r.author + " ("@ + short_form(r.state) + ")"@,
        forall|a: Seq<ReviewModel>, b: Seq<ReviewModel>|
            a.len() > 0 && b.len() > 0 ==> #[trigger] others_listed(a + b) == others_listed(a)
                + ", "@ + others_listed(b),
        pr.requested_reviewers.len() == 0 ==> requested_listed(pr) == "(なし)"@,
        pr.requested_reviewers.len() > 0 ==> requested_listed(pr) == bare_names(pr),
{
    let f = |r: ReviewModel| r.author + " ("@ + short_form(r.state) + ")"@;
    let one = f(r);
    assert(seq![r].map_values(f) =~= seq![one]);
    crate::text::law_joined(seq![one], seq![one], one, ", "@);
    assert forall|a: Seq<ReviewModel>, b: Seq<ReviewModel>|
        a.len() > 0 && b.len() > 0 implies #[trigger] others_listed(a + b) == others_listed(a)
        + ", "@ + others_listed(b) by {
        assert((a + b).map_values(f) =~= a.map_values(f) + b.map_values(f));
        crate::text::law_joined(a.map_values(f), b.map_values(f), one, ", "@);
    }
}

/// The list as JSON has the login, and for each pull request, in order, what is known
/// of it, each thing under its name: the status is the text of the status column, and
/// review states are in their short form.
pub proof fn law_list_as_json(login: Seq<char>, prs: Seq<PullRequestModel>, i: int)
    requires
        0 <= i < prs.len(),
    ensures
        ({
            let all = status_value(login, prs);
            let p = prs[i];
            &&& all.at("login"@) == JsonModel::Text(login)
            &&& all.at("pull_requests"@) matches JsonModel::Array(items) && items.len() == prs.len()
                && ({
                let one = items[i];
                &&& one.at("repository"@) == JsonModel::Text(p.repository)
                &&& one.at("number"@) == JsonModel::Int(p.number)
                &&& one.at("title"@) == JsonModel::Text(p.title)
                &&& one.at("url"@) == JsonModel::Text(p.url)
                &&& one.at("author"@) == JsonModel::Text(p.author)
                &&& one.at("updated_at"@) == JsonModel::Text(p.updated_at)
                &&& one.at("status"@) == JsonModel::Text(p.status().label_text())
                &&& one.at("requested_reviewers"@) matches JsonModel::Array(names) && names.len()
                    == p.requested_reviewers.len() && forall|k: int|
                    0 <= k < names.len() ==> #[trigger] names[k] == JsonModel::Text(
                        p.requested_reviewers[k],
                    )
                &&& match p.my_latest_review {
                    Some(r) => one.at("my_latest_review"@).at("state"@) == JsonModel::Text(
                        short_form(r.state),
                    ) && one.at("my_latest_review"@).at("submitted_at"@) == JsonModel::Text(
                        r.submitted_at,
                    ),
                    None => one.at("my_latest_review"@) == JsonModel::Null,
                }
                &&& one.at("other_reviews"@) matches JsonModel::Array(others) && others.len()
                    == p.other_latest_reviews.len() && forall|k: int|
                    0 <= k < others.len() ==> {
                        let r = p.other_latest_reviews[k];
                        let other = #[trigger] others[k];
                        &&& other.at("author"@) == JsonModel::Text(r.author)
                        &&& other.at("state"@) == JsonModel::Text(short_form(r.state))
                        &&& other.at("submitted_at"@) == JsonModel::Text(r.submitted_at)
                    }
            })
        }),
{
    let p = prs[i];
    let all = status_value(login, prs);
    lemma_status_orderly(login, prs);
    lemma_pr_orderly(p);
    lemma_found(all->Object_0, 0);
    lemma_found(all->Object_0, 1);
    let members = pr_value(p)->Object_0;
    lemma_found(members, 0);
    lemma_found(members, 1);
    lemma_found(members, 2);
    lemma_found(members, 3);
    lemma_found(members, 4);
    lemma_found(members, 5);
    lemma_found(members, 6);
    lemma_found(members, 7);
    lemma_found(members, 8);
    lemma_found(members, 9);
    lemma_own_orderly(p.my_latest_review);
    if p.my_latest_review is Some {
        let own = own_value(p.my_latest_review)->Object_0;
        lemma_found(own, 0);
        lemma_found(own, 1);
    }
    let others = pr_value(p).at("other_reviews"@)->Array_0;
    assert forall|k: int| 0 <= k < others.len() implies {
        let r = p.other_latest_reviews[k];
        let other = #[trigger] others[k];
        &&& other.at("author"@) == JsonModel::Text(r.author)
        &&& other.at("state"@) == JsonModel::Text(short_form(r.state))
        &&& other.at("submitted_at"@) == JsonModel::Text(r.submitted_at)
    } by {
        let r = p.other_latest_reviews[k];
        lemma_other_orderly(r);
        let list = other_value(r)->Object_0;
        lemma_found(list, 0);
        lemma_found(list, 1);
        lemma_found(list, 2);
    }
}

/// Where the names go up, a member is found by its name.
proof fn lemma_found(members: Seq<Member>, k: int)
    requires
        names_increase(members),
        0 <= k < members.len(),
    ensures
        JsonModel::Object(members).at(members[k].name) == members[k].value,
{
    let key = members[k].name;
    crate::json::law_member(JsonModel::Object(members), key);
    assert forall|i: int| 0 <= i < k implies (#[trigger] members[i]).name != key by {
        assert(before(members[i].name, members[k].name));
        crate::order::lemma_irreflexive(key);
    }
}

/// The statistics as text begin with the user and go on with a line for each number,
/// under its title; the window goes from the day of its start to that of its end.
pub proof fn law_stats_printed(login: Seq<char>, stats: Stats, share: Seq<char>)
    requires
        all_ascii(stats.since@) && stats.since@.len() >= 10,
        all_ascii(stats.until@) && stats.until@.len() >= 10,
    ensures
        ({
            let text = stats_text(login, stats, share);
            let days = stats.since@.take(10) + " 〜 "@ + stats.until@.take(10);
            &&& ("=== gh-review-insight stats (login: "@ + login + ") ===\n\n"@).is_prefix_of(text)
            &&& occurs("期間"@ + ": "@ + days + "\n"@, text)
            &&& occurs(
                "レビュー提出数"@ + ": "@ + decimal_nat(stats.own_review_submissions as nat) + "\n"@,
                text,
            )
            &&& occurs(
                "レビューしたPR数"@ + ": "@ + decimal_nat(stats.unique_prs_reviewed as nat) + "\n"@,
                text,
            )
            &&& occurs(
                "対象PR上の全レビュー数"@ + ": "@ + decimal_nat(stats.reviews_on_touched_prs as nat)
                    + "\n"@,
                text,
            )
            &&& occurs("自分の割合"@ + ": "@ + share.push('%') + "\n"@, text)
            &&& occurs(
                "他レビュワーもいたPR数"@ + ": "@ + decimal_nat(
                    stats.prs_with_other_reviewers as nat,
                ) + "\n"@,
                text,
            )
            &&& occurs("候補PR数"@ + ": "@ + decimal_nat(stats.candidate_prs as nat) + "\n"@, text)
        }),
{
    let since = byte_slice(stats.since@, 0, 10)->0;
    let until = byte_slice(stats.until@, 0, 10)->0;
    crate::text::law_ascii_slice(stats.since@, 0, 10);
    crate::text::law_ascii_slice(stats.until@, 0, 10);
    assert(stats.since@.subrange(0, 10) =~= stats.since@.take(10));
    assert(stats.until@.subrange(0, 10) =~= stats.until@.take(10));
    let rows = stats_rows(stats, since, until, share);
    let head = "=== gh-review-insight stats (login: "@ + login + ") ===\n\n"@;
    let text = stats_text(login, stats, share);
    assert(text.subrange(0, head.len() as int) =~= head);
    reveal_strlit("%");
    assert(share + "%"@ =~= share.push('%'));
    lemma_row_printed(rows, 0, head);
    lemma_row_printed(rows, 1, head);
    lemma_row_printed(rows, 2, head);
    lemma_row_printed(rows, 3, head);
    lemma_row_printed(rows, 4, head);
    lemma_row_printed(rows, 5, head);
    lemma_row_printed(rows, 7, head);
}

proof fn lemma_row_printed(rows: Seq<RowModel>, i: int, head: Seq<char>)
    requires
        0 <= i < rows.len(),
    ensures
        occurs(rows[i].title + ": "@ + rows[i].value + "\n"@, head + rows_text(rows)),
{
    let a = rows.take(i);
    let b = rows.skip(i + 1);
    let one = seq![rows[i]];
    let line = rows[i].title + ": "@ + rows[i].value + "\n"@;
    assert(rows =~= a + (one + b));
    law_lines_printed(a, one + b, rows[i]);
    law_lines_printed(one, b, rows[i]);
    let x = head + rows_text(a);
    assert(x + line + rows_text(b) =~= head + rows_text(rows));
    crate::text::law_occurs(line, head + rows_text(rows));
}

} // verus!
