//! The status list: open pull requests that ask for the user's review, plus those
//! the user has reviewed.
use vstd::prelude::*;

use crate::gh::{
    gh_reply, graphql_args, graphql_arguments, law_query_passed, read_reply, reply_in, text_reply,
    viewer_in, viewer_login_in, Variable, VIEWER_QUERY,
};
use crate::json::{values, Json, JsonModel};
use crate::lists::goes_up;
use crate::model::{pr_models, PullRequestModel, PullRequestSummary};
use crate::number::decimal_int;
use crate::process::{arguments, output_models, Output, OutputModel};
use crate::rank::{key_models, place_models, rank, ranked, ranking, KeyModel, SortKey};
use crate::search::{
    law_next_page, law_page_asked, law_page_results, law_search_asks, law_search_done,
    lemma_last_page, lemma_on_pages, lemma_search_prefix, lemma_search_pushed,
    next_cursor, on_page, page_nodes, pages, replies_in, search_pull_requests, search_run, SearchModel, SearchStep,
    PR_SEARCH_QUERY,
};
use crate::summary::{law_summary_tells, summarize_ignoring, summary_of, told_by};
use crate::text::{
    cat, join, joined, law_joined, law_occurs, occurs, same, texts, trim_start, trimmed_start,
};
use crate::textmap::{in_order, TextSet};

verus! {

/// Options for the status list.
#[derive(Clone, Debug)]
pub struct StatusOptions {
    pub user: String,
    pub repos: Vec<String>,
    pub owners: Vec<String>,
    pub include_drafts: bool,
    pub no_reviewed: bool,
    pub limit: usize,
    /// Accounts whose reviews do not count (e.g. bots).
    pub ignored: Vec<String>,
}

/// What the options hold.
#[verifier::ext_equal]
pub struct OptionsModel {
    pub user: Seq<char>,
    pub repos: Seq<Seq<char>>,
    pub owners: Seq<Seq<char>>,
    pub include_drafts: bool,
    pub no_reviewed: bool,
    pub limit: int,
    pub ignored: Seq<Seq<char>>,
}

impl View for StatusOptions {
    type V = OptionsModel;

    open spec fn view(&self) -> OptionsModel {
        OptionsModel {
            user: self.user@,
            repos: texts(self.repos@),
            owners: texts(self.owners@),
            include_drafts: self.include_drafts,
            no_reviewed: self.no_reviewed,
            limit: self.limit as int,
            ignored: texts(self.ignored@),
        }
    }
}

impl Default for StatusOptions {
    fn default() -> (r: StatusOptions)
        ensures
            r@ == (OptionsModel {
                user: "@me"@,
                repos: Seq::empty(),
                owners: Seq::empty(),
                include_drafts: false,
                no_reviewed: false,
                limit: 50,
                ignored: Seq::empty(),
            }),
    {
        let r = StatusOptions {
            user: "@me".to_owned(),
            repos: Vec::new(),
            owners: Vec::new(),
            include_drafts: false,
            no_reviewed: false,
            limit: 50,
            ignored: Vec::new(),
        };
        assert(texts(r.repos@) =~= Seq::empty());
        assert(texts(r.owners@) =~= Seq::empty());
        assert(texts(r.ignored@) =~= Seq::empty());
        r
    }
}

/// Who the list is for.
pub enum LoginStep {
    /// The login of the authenticated user has to be asked for.
    AskViewer,
    /// The login, and how the user is named in a search.
    Known { login: String, search_user: String },
    /// The login could not be had.
    Failed(String),
}

/// Who the list is for.
#[verifier::ext_equal]
pub enum LoginModel {
    AskViewer,
    Known { login: Seq<char>, search_user: Seq<char> },
    Failed(Seq<char>),
}

impl View for LoginStep {
    type V = LoginModel;

    open spec fn view(&self) -> LoginModel {
        match self {
            LoginStep::AskViewer => LoginModel::AskViewer,
            LoginStep::Known { login, search_user } => LoginModel::Known {
                login: login@,
                search_user: search_user@,
            },
            LoginStep::Failed(reason) => LoginModel::Failed(reason@),
        }
    }
}

/// Who `value` names: `@me` is the viewer, who keeps that name in searches; any
/// other value is a login, with or without `@` before it.
pub open spec fn login_for(
    value: Seq<char>,
    viewer: Option<Result<Seq<char>, Seq<char>>>,
) -> LoginModel {
    if value == "@me"@ {
        match viewer {
            None => LoginModel::AskViewer,
            Some(Ok(login)) => LoginModel::Known { login, search_user: "@me"@ },
            Some(Err(reason)) => LoginModel::Failed(reason),
        }
    } else {
        let login = trimmed_start(value, '@');
        LoginModel::Known { login, search_user: login }
    }
}

/// An answer to the viewer query as plain data.
pub open spec fn viewer_reply(v: Option<Result<String, String>>) -> Option<
    Result<Seq<char>, Seq<char>>,
> {
    match v {
        Some(r) => Some(text_reply(r)),
        None => None,
    }
}

/// Resolve `@me` to the viewer login. Gives the login and the search user, who
/// keeps `@me` for `review-requested:@me` style qualifiers. `viewer` is the answer
/// to the viewer query, once there is one.
pub fn normalize_login(value: &str, viewer: Option<Result<String, String>>) -> (r: LoginStep)
    ensures
        r@ == login_for(value@, viewer_reply(viewer)),
{
    if same(value, "@me") {
        match viewer {
            None => LoginStep::AskViewer,
            Some(Ok(login)) => LoginStep::Known { login, search_user: "@me".to_owned() },
            Some(Err(reason)) => LoginStep::Failed(reason),
        }
    } else {
        let login = trim_start(value, '@');
        LoginStep::Known { login: login.clone(), search_user: login }
    }
}

/// The qualifiers that narrow a search to repositories and owners.
pub open spec fn qualifiers(repos: Seq<Seq<char>>, owners: Seq<Seq<char>>) -> Seq<Seq<char>> {
    repos.map_values(|r: Seq<char>| "repo:"@ + r) + owners.map_values(
        |o: Seq<char>| "user:"@ + o,
    )
}

/// The qualifiers that narrow a search to repositories and owners.
pub fn scope_qualifiers(repos: &Vec<String>, owners: &Vec<String>) -> (r: Vec<String>)
    ensures
        texts(r@) == qualifiers(texts(repos@), texts(owners@)),
{
    let mut out: Vec<String> = Vec::new();
    let ghost first = texts(repos@).map_values(|r: Seq<char>| "repo:"@ + r);
    let ghost second = texts(owners@).map_values(|o: Seq<char>| "user:"@ + o);
    for i in 0..repos.len()
        invariant
            first == texts(repos@).map_values(|r: Seq<char>| "repo:"@ + r),
            texts(out@) == first.take(i as int),
    {
        let ghost earlier = texts(out@);
        let part = cat("repo:", repos[i].as_str());
        out.push(part);
        assert(texts(out@) =~= earlier.push(part@));
        assert(first.take(i + 1) =~= earlier.push(part@));
    }
    assert(texts(out@) =~= first + second.take(0));
    for i in 0..owners.len()
        invariant
            second == texts(owners@).map_values(|o: Seq<char>| "user:"@ + o),
            texts(out@) == first + second.take(i as int),
    {
        let ghost earlier = texts(out@);
        let part = cat("user:", owners[i].as_str());
        out.push(part);
        assert(texts(out@) =~= earlier.push(part@));
        assert(first + second.take(i + 1) =~= earlier.push(part@));
    }
    assert(second.take(second.len() as int) =~= second);
    out
}

/// The text of a search for open pull requests in scope with one more qualifier.
pub open spec fn query_text(opts: OptionsModel, extra: Seq<char>) -> Seq<char> {
    joined(
        (seq!["is:pr"@, "archived:false"@, "is:open"@] + qualifiers(opts.repos, opts.owners)).push(
            extra,
        ),
        " "@,
    )
}

/// The text of a search for open pull requests in scope with one more qualifier.
pub fn status_query(opts: &StatusOptions, extra: &str) -> (r: String)
    ensures
        r@ == query_text(opts@, extra@),
{
    let mut parts = arguments(&["is:pr", "archived:false", "is:open"]);
    let ghost head = texts(parts@);
    assert(head =~= seq!["is:pr"@, "archived:false"@, "is:open"@]);
    let mut scope = scope_qualifiers(&opts.repos, &opts.owners);
    let ghost narrow = texts(scope@);
    parts.append(&mut scope);
    assert(texts(parts@) =~= head + narrow);
    parts.push(extra.to_owned());
    assert(texts(parts@) =~= (head + narrow).push(extra@));
    join(&parts, " ")
}

/// A search result with the search it came from.
#[verifier::ext_equal]
pub struct Hit {
    pub source: Seq<char>,
    pub node: JsonModel,
}

impl Hit {
    /// The address of the pull request.
    pub open spec fn url(self) -> Seq<char> {
        self.node.at("url"@).text_or_empty()
    }
}

/// The results of both searches, those that ask for a review first.
pub open spec fn hits_of(requested: Seq<JsonModel>, reviewed: Seq<JsonModel>) -> Seq<Hit> {
    requested.map_values(|n: JsonModel| Hit { source: "requested"@, node: n })
        + reviewed.map_values(|n: JsonModel| Hit { source: "reviewed"@, node: n })
}

/// The addresses in the order in which they are first seen, each once. Results
/// without an address are left out.
pub open spec fn first_seen(hits: Seq<Hit>) -> Seq<Seq<char>>
    decreases hits.len(),
{
    if hits.len() == 0 {
        Seq::empty()
    } else {
        let earlier = first_seen(hits.drop_last());
        let url = hits.last().url();
        if url.len() == 0 || earlier.contains(url) {
            earlier
        } else {
            earlier.push(url)
        }
    }
}

/// The first result with an address.
pub open spec fn node_at(hits: Seq<Hit>, url: Seq<char>) -> JsonModel
    decreases hits.len(),
{
    if hits.len() == 0 {
        JsonModel::Null
    } else if hits[0].url() == url {
        hits[0].node
    } else {
        node_at(hits.skip(1), url)
    }
}

/// The searches that found an address.
pub open spec fn sources_at(hits: Seq<Hit>, url: Seq<char>) -> Set<Seq<char>> {
    Set::new(|s: Seq<char>| exists|i: int| 0 <= i < hits.len() && found_by(#[trigger] hits[i], url, s))
}

/// Whether a result has this address and came from this search.
pub open spec fn found_by(hit: Hit, url: Seq<char>, source: Seq<char>) -> bool {
    hit.url() == url && hit.source == source
}

/// The summaries of the results, one for each address, in the order in which the
/// addresses are first seen.
pub open spec fn summaries(
    hits: Seq<Hit>,
    login: Seq<char>,
    ignored: Seq<Seq<char>>,
) -> Seq<PullRequestModel> {
    first_seen(hits).map_values(
        |url: Seq<char>|
            summary_of(node_at(hits, url), login, in_order(sources_at(hits, url)), ignored),
    )
}

/// How far up the list a pull request stands.
pub open spec fn priority(p: PullRequestModel) -> int {
    match (p.my_latest_review is Some, p.requested_for_user) {
        (false, true) => 0,
        (true, true) => 1,
        (true, false) => 2,
        (false, false) => 3,
    }
}

/// How far up the list a pull request stands: those only asked for first, then
/// those asked for again, those reviewed, and the rest.
pub fn status_priority(summary: &PullRequestSummary) -> (r: i32)
    ensures
        r == priority(summary@),
{
    match (summary.my_latest_review.is_some(), summary.requested_for_user) {
        (false, true) => 0,
        (true, true) => 1,
        (true, false) => 2,
        (false, false) => 3,
    }
}

/// What the list is sorted by: the priority, then the time of the last update.
pub open spec fn sort_keys(list: Seq<PullRequestModel>) -> Seq<KeyModel> {
    list.map_values(|p: PullRequestModel| KeyModel { rank: priority(p), text: p.updated_at })
}

/// The summaries that are listed: without drafts, unless they are asked for.
pub open spec fn without_drafts(
    list: Seq<PullRequestModel>,
    include_drafts: bool,
) -> Seq<PullRequestModel> {
    if include_drafts {
        list
    } else {
        list.filter(|p: PullRequestModel| !p.is_draft)
    }
}

/// The list made of the results of the two searches. Within a priority the newest
/// update comes first; where that leaves it open, the order of first sight holds.
pub open spec fn listing(
    opts: OptionsModel,
    login: Seq<char>,
    requested: Seq<JsonModel>,
    reviewed: Seq<JsonModel>,
) -> Seq<PullRequestModel> {
    let all = summaries(hits_of(requested, reviewed), login, opts.ignored);
    let kept = without_drafts(all, opts.include_drafts);
    ranked(kept, sort_keys(kept), true)
}

struct Found {
    url: String,
    node: Json,
    sources: TextSet,
}

spec fn merged(list: Seq<Found>, hits: Seq<Hit>) -> bool {
    let urls = first_seen(hits);
    &&& list.len() == urls.len()
    &&& forall|i: int|
        0 <= i < list.len() ==> {
            &&& (#[trigger] list[i]).url@ == urls[i]
            &&& list[i].node@ == node_at(hits, urls[i])
            &&& list[i].sources@ == sources_at(hits, urls[i])
        }
}

proof fn lemma_node_at_push(hits: Seq<Hit>, hit: Hit, url: Seq<char>)
    ensures
        first_seen(hits).contains(url) ==> node_at(hits.push(hit), url) == node_at(hits, url),
        !first_seen(hits).contains(url) && url.len() > 0 && hit.url() == url ==> node_at(
            hits.push(hit),
            url,
        ) == hit.node,
    decreases hits.len(),
{
    lemma_seen(hits, url);
    if hits.len() > 0 {
        let rest = hits.skip(1);
        assert(hits.push(hit).skip(1) =~= rest.push(hit));
        lemma_seen(rest, url);
        lemma_node_at_push(rest, hit, url);
        if hits[0].url() != url {
            if first_seen(hits).contains(url) {
                let i = choose|i: int| 0 <= i < hits.len() && (#[trigger] hits[i]).url() == url;
                assert(rest[i - 1].url() == url);
            } else if url.len() > 0 && first_seen(rest).contains(url) {
                let i = choose|i: int| 0 <= i < rest.len() && (#[trigger] rest[i]).url() == url;
                assert(hits[i + 1].url() == url);
            }
        } else if url.len() > 0 {
            assert(hits[0].url() == url);
        }
    } else {
        assert(hits.push(hit)[0] == hit);
    }
}

/// The addresses that are listed are those of the results, without the empty one.
pub proof fn lemma_seen(hits: Seq<Hit>, url: Seq<char>)
    ensures
        first_seen(hits).contains(url) <==> url.len() > 0 && exists|i: int|
            0 <= i < hits.len() && (#[trigger] hits[i]).url() == url,
    decreases hits.len(),
{
    if hits.len() > 0 {
        let shorter = hits.drop_last();
        lemma_seen(shorter, url);
        let earlier = first_seen(shorter);
        let last = hits.last().url();
        if first_seen(hits).contains(url) {
            if !earlier.contains(url) {
                let j = choose|j: int| 0 <= j < first_seen(hits).len() && first_seen(hits)[j] == url;
                assert(j == earlier.len());
                assert(hits[hits.len() - 1].url() == url);
            } else {
                let i = choose|i: int| 0 <= i < shorter.len() && (#[trigger] shorter[i]).url() == url;
                assert(hits[i].url() == url);
            }
        }
        if url.len() > 0 && exists|i: int| 0 <= i < hits.len() && (#[trigger] hits[i]).url()
            == url {
            let i = choose|i: int| 0 <= i < hits.len() && (#[trigger] hits[i]).url() == url;
            if i < hits.len() - 1 {
                assert(shorter[i].url() == url);
            }
            if earlier.contains(url) {
                let j = choose|j: int| 0 <= j < earlier.len() && earlier[j] == url;
                assert(first_seen(hits)[j] == url);
            } else {
                assert(first_seen(hits)[earlier.len() as int] == url);
            }
        }
    }
}

proof fn lemma_sources_push(hits: Seq<Hit>, hit: Hit, url: Seq<char>)
    ensures
        sources_at(hits.push(hit), url) == if hit.url() == url {
            sources_at(hits, url).insert(hit.source)
        } else {
            sources_at(hits, url)
        },
{
    let longer = hits.push(hit);
    let want = if hit.url() == url {
        sources_at(hits, url).insert(hit.source)
    } else {
        sources_at(hits, url)
    };
    assert forall|s: Seq<char>| sources_at(longer, url).contains(s) <==> want.contains(s) by {
        if sources_at(longer, url).contains(s) {
            let i = choose|i: int| 0 <= i < longer.len() && found_by(#[trigger] longer[i], url, s);
            if i < hits.len() {
                assert(found_by(hits[i], url, s));
            }
        }
        if sources_at(hits, url).contains(s) {
            let i = choose|i: int| 0 <= i < hits.len() && found_by(#[trigger] hits[i], url, s);
            assert(found_by(longer[i], url, s));
        }
        if hit.url() == url && s == hit.source {
            assert(found_by(longer[hits.len() as int], url, s));
        }
    }
    assert(sources_at(longer, url) =~= want);
}

fn merge(list: &mut Vec<Found>, source: &str, nodes: &Vec<Json>, Ghost(hits): Ghost<Seq<Hit>>)
    requires
        merged(old(list)@, hits),
    ensures
        merged(
            final(list)@,
            hits + values(nodes@).map_values(|n: JsonModel| Hit { source: source@, node: n }),
        ),
{
    let ghost new = values(nodes@).map_values(|n: JsonModel| Hit { source: source@, node: n });
    assert(hits + new.take(0) =~= hits);
    for i in 0..nodes.len()
        invariant
            new == values(nodes@).map_values(|n: JsonModel| Hit { source: source@, node: n }),
            merged(list@, hits + new.take(i as int)),
    {
        let ghost seen = hits + new.take(i as int);
        let ghost hit = new[i as int];
        proof {
            assert(hits + new.take(i + 1) =~= seen.push(hit));
            assert(seen.push(hit).drop_last() =~= seen);
            assert(seen.push(hit).last() == hit);
            assert forall|u: Seq<char>| first_seen(seen).contains(u) implies #[trigger] node_at(
                seen.push(hit),
                u,
            ) == node_at(seen, u) by {
                lemma_node_at_push(seen, hit, u);
            }
            assert forall|u: Seq<char>| #[trigger]
                sources_at(seen.push(hit), u) == (if hit.url() == u {
                sources_at(seen, u).insert(hit.source)
            } else {
                sources_at(seen, u)
            }) by {
                lemma_sources_push(seen, hit, u);
            }
        }
        let url = nodes[i].text_or_empty_at("url");
        assert(url@ == hit.url());
        if !url.as_str().is_empty() {
            let mut at: usize = 0;
            while at < list.len() && !same(list[at].url.as_str(), url.as_str())
                invariant
                    at <= list@.len(),
                    forall|j: int| 0 <= j < at ==> (#[trigger] list@[j]).url@ != url@,
                decreases list@.len() - at,
            {
                at += 1;
            }
            let ghost was = list@;
            if at < list.len() {
                assert(first_seen(seen)[at as int] == url@);
                list[at].sources.insert(source.to_owned());
                proof {
                    lemma_distinct(seen);
                    assert forall|j: int| 0 <= j < list@.len() implies {
                        &&& (#[trigger] list@[j]).url@ == first_seen(seen.push(hit))[j]
                        &&& list@[j].node@ == node_at(
                            seen.push(hit),
                            first_seen(seen.push(hit))[j],
                        )
                        &&& list@[j].sources@ == sources_at(
                            seen.push(hit),
                            first_seen(seen.push(hit))[j],
                        )
                    } by {
                        let u = first_seen(seen)[j];
                        assert(first_seen(seen).contains(u));
                        assert(was[j].url@ == u);
                        assert(first_seen(seen.push(hit)) == first_seen(seen));
                    }
                }
            } else {
                assert forall|j: int| 0 <= j < first_seen(seen).len() implies first_seen(seen)[j]
                    != url@ by {
                    assert(list@[j].url@ == first_seen(seen)[j]);
                }
                let mut sources = TextSet::new();
                sources.insert(source.to_owned());
                proof {
                    lemma_node_at_push(seen, hit, url@);
                    lemma_seen(seen, url@);
                    assert(sources_at(seen, url@) =~= Set::empty()) by {
                        assert forall|s: Seq<char>| !sources_at(seen, url@).contains(s) by {
                            if sources_at(seen, url@).contains(s) {
                                let k = choose|k: int|
                                    0 <= k < seen.len() && found_by(#[trigger] seen[k], url@, s);
                                assert(seen[k].url() == url@);
                            }
                        }
                    }
                }
                list.push(Found { url, node: nodes[i].copy(), sources });
                proof {
                    assert forall|j: int| 0 <= j < list@.len() implies {
                        &&& (#[trigger] list@[j]).url@ == first_seen(seen.push(hit))[j]
                        &&& list@[j].node@ == node_at(
                            seen.push(hit),
                            first_seen(seen.push(hit))[j],
                        )
                        &&& list@[j].sources@ == sources_at(
                            seen.push(hit),
                            first_seen(seen.push(hit))[j],
                        )
                    } by {
                        if j < was.len() {
                            let u = first_seen(seen)[j];
                            assert(first_seen(seen).contains(u));
                            assert(was[j].url@ == u);
                            assert(list@[j] == was[j]);
                        }
                    }
                }
            }
        } else {
            assert forall|j: int| 0 <= j < list@.len() implies {
                &&& (#[trigger] list@[j]).url@ == first_seen(seen.push(hit))[j]
                &&& list@[j].node@ == node_at(seen.push(hit), first_seen(seen.push(hit))[j])
                &&& list@[j].sources@ == sources_at(
                    seen.push(hit),
                    first_seen(seen.push(hit))[j],
                )
            } by {
                let u = first_seen(seen)[j];
                assert(first_seen(seen).contains(u));
                lemma_seen(seen, u);
            }
        }
    }
    assert(new.take(new.len() as int) =~= new);
}

/// Each address is listed once.
pub proof fn lemma_distinct(hits: Seq<Hit>)
    ensures
        first_seen(hits).no_duplicates(),
    decreases hits.len(),
{
    if hits.len() > 0 {
        lemma_distinct(hits.drop_last());
    }
}

fn summarize_found(list: &Vec<Found>, login: &str, ignored: &Vec<String>) -> (r: Vec<
    PullRequestSummary,
>)
    ensures
        forall|hits: Seq<Hit>| #[trigger]
            merged(list@, hits) ==> pr_models(r@) == summaries(hits, login@, texts(ignored@)),
{
    let mut out: Vec<PullRequestSummary> = Vec::new();
    for i in 0..list.len()
        invariant
            out@.len() == i,
            forall|j: int|
                0 <= j < i ==> (#[trigger] out@[j])@ == summary_of(
                    list@[j].node@,
                    login@,
                    in_order(list@[j].sources@),
                    texts(ignored@),
                ),
    {
        let sources = list[i].sources.to_list();
        out.push(summarize_ignoring(&list[i].node, login, &sources, ignored));
    }
    assert forall|hits: Seq<Hit>| #[trigger] merged(list@, hits) implies pr_models(out@)
        == summaries(hits, login@, texts(ignored@)) by {
        assert(pr_models(out@) =~= summaries(hits, login@, texts(ignored@)));
    }
    out
}

fn drop_drafts(list: Vec<PullRequestSummary>, include_drafts: bool) -> (r: Vec<PullRequestSummary>)
    ensures
        pr_models(r@) == without_drafts(pr_models(list@), include_drafts),
{
    if include_drafts {
        return list;
    }
    let ghost keep = |p: PullRequestModel| !p.is_draft;
    let ghost all = pr_models(list@);
    let mut out: Vec<PullRequestSummary> = Vec::new();
    reveal(Seq::filter);
    for i in 0..list.len()
        invariant
            all == pr_models(list@),
            keep == (|p: PullRequestModel| !p.is_draft),
            pr_models(out@) == all.take(i as int).filter(keep),
    {
        reveal(Seq::filter);
        let ghost earlier = pr_models(out@);
        proof {
            assert(all.take(i + 1).drop_last() =~= all.take(i as int));
            assert(all.take(i + 1).last() == list@[i as int]@);
        }
        if !list[i].is_draft {
            out.push(list[i].copy());
            assert(pr_models(out@) =~= earlier.push(list@[i as int]@));
        }
    }
    assert(all.take(all.len() as int) =~= all);
    out
}

fn sort_list(list: &Vec<PullRequestSummary>) -> (r: Vec<PullRequestSummary>)
    ensures
        pr_models(r@) == ranked(pr_models(list@), sort_keys(pr_models(list@)), true),
{
    let mut keys: Vec<SortKey> = Vec::new();
    for i in 0..list.len()
        invariant
            keys@.len() == i,
            forall|j: int|
                0 <= j < i ==> (#[trigger] keys@[j])@ == (KeyModel {
                    rank: priority(list@[j]@),
                    text: list@[j].updated_at@,
                }),
    {
        keys.push(SortKey { rank: status_priority(&list[i]), text: list[i].updated_at.clone() });
    }
    assert(key_models(keys@) =~= sort_keys(pr_models(list@)));
    let places = rank(&keys, true);
    let mut out: Vec<PullRequestSummary> = Vec::new();
    for i in 0..places.len()
        invariant
            out@.len() == i,
            forall|j: int| 0 <= j < places@.len() ==> (#[trigger] places@[j]) < list@.len(),
            forall|j: int| 0 <= j < i ==> (#[trigger] out@[j])@ == list@[places@[j] as int]@,
    {
        out.push(list[places[i]].copy());
    }
    proof {
        let order = ranking(sort_keys(pr_models(list@)), true);
        assert(order == place_models(places@));
        assert forall|j: int| 0 <= j < out@.len() implies pr_models(out@)[j] == #[trigger] ranked(
            pr_models(list@),
            sort_keys(pr_models(list@)),
            true,
        )[j] by {
            assert(order[j] == places@[j] as int);
        }
        assert(pr_models(out@) =~= ranked(
            pr_models(list@),
            sort_keys(pr_models(list@)),
            true,
        ));
    }
    out
}

/// The list made of the results of the two searches.
pub fn list_pull_requests(
    opts: &StatusOptions,
    login: &str,
    requested: &Vec<Json>,
    reviewed: &Vec<Json>,
) -> (r: Vec<PullRequestSummary>)
    ensures
        pr_models(r@) == listing(opts@, login@, values(requested@), values(reviewed@)),
{
    let mut found: Vec<Found> = Vec::new();
    let ghost asked = values(requested@).map_values(
        |n: JsonModel| Hit { source: "requested"@, node: n },
    );
    let ghost done = values(reviewed@).map_values(
        |n: JsonModel| Hit { source: "reviewed"@, node: n },
    );
    merge(&mut found, "requested", requested, Ghost(Seq::empty()));
    assert(Seq::<Hit>::empty() + asked =~= asked);
    merge(&mut found, "reviewed", reviewed, Ghost(asked));
    assert(merged(found@, hits_of(values(requested@), values(reviewed@))));
    let all = summarize_found(&found, login, &opts.ignored);
    let kept = drop_drafts(all, opts.include_drafts);
    sort_list(&kept)
}

/// What the next step towards the status list is.
pub enum StatusStep {
    /// Run `gh` with these arguments.
    Run(Vec<String>),
    /// The list is there, for the user with this login.
    Done { login: String, prs: Vec<PullRequestSummary> },
    /// The list could not be had.
    Failed(String),
}

/// What the next step towards the status list is.
#[verifier::ext_equal]
pub enum StatusModel {
    Run(Seq<Seq<char>>),
    Done { login: Seq<char>, prs: Seq<PullRequestModel> },
    Failed(Seq<char>),
}

impl View for StatusStep {
    type V = StatusModel;

    open spec fn view(&self) -> StatusModel {
        match self {
            StatusStep::Run(args) => StatusModel::Run(texts(args@)),
            StatusStep::Done { login, prs } => StatusModel::Done {
                login: login@,
                prs: pr_models(prs@),
            },
            StatusStep::Failed(reason) => StatusModel::Failed(reason@),
        }
    }
}

/// The replies that runs of `gh` gave.
pub open spec fn gh_replies(outputs: Seq<OutputModel>) -> Seq<Result<JsonModel, Seq<char>>> {
    outputs.map_values(|o: OutputModel| gh_reply(o))
}

/// The text of a search for what a qualifier says of a user.
pub open spec fn search_text(opts: OptionsModel, kind: Seq<char>, user: Seq<char>) -> Seq<char> {
    query_text(opts, kind + user)
}

/// The next step once the user is known, with the replies from `from` on for the
/// searches.
pub open spec fn searches_run(
    opts: OptionsModel,
    login: Seq<char>,
    search_user: Seq<char>,
    replies: Seq<Result<JsonModel, Seq<char>>>,
    from: int,
) -> StatusModel {
    let asked = search_text(opts, "review-requested:"@, search_user);
    let done = search_text(opts, "reviewed-by:"@, login);
    match search_run(asked, opts.limit, replies, from, Seq::empty(), None) {
        SearchModel::Ask(vars) => StatusModel::Run(graphql_args(PR_SEARCH_QUERY@, vars)),
        SearchModel::Failed(reason) => StatusModel::Failed(reason),
        SearchModel::Done { nodes: requested, used } => if opts.no_reviewed {
            StatusModel::Done { login, prs: listing(opts, login, requested, Seq::empty()) }
        } else {
            match search_run(done, opts.limit, replies, used, Seq::empty(), None) {
                SearchModel::Ask(vars) => StatusModel::Run(graphql_args(PR_SEARCH_QUERY@, vars)),
                SearchModel::Failed(reason) => StatusModel::Failed(reason),
                SearchModel::Done { nodes: reviewed, .. } => StatusModel::Done {
                    login,
                    prs: listing(opts, login, requested, reviewed),
                },
            }
        },
    }
}

/// The next step towards the list, given what the runs of `gh` gave so far. The
/// first of them answers the viewer query where the user is `@me`.
pub open spec fn status_run(
    opts: OptionsModel,
    replies: Seq<Result<JsonModel, Seq<char>>>,
) -> StatusModel {
    let viewer = if replies.len() > 0 {
        Some(viewer_in(replies[0]))
    } else {
        None
    };
    match login_for(opts.user, viewer) {
        LoginModel::AskViewer => StatusModel::Run(graphql_args(VIEWER_QUERY@, Seq::empty())),
        LoginModel::Failed(reason) => StatusModel::Failed(reason),
        LoginModel::Known { login, search_user } => searches_run(
            opts,
            login,
            search_user,
            replies,
            if opts.user == "@me"@ {
                1
            } else {
                0
            },
        ),
    }
}

fn read_replies(outputs: &Vec<Output>) -> (r: Vec<Result<Json, String>>)
    ensures
        replies_in(r@) == gh_replies(output_models(outputs@)),
        r@.len() == outputs@.len(),
{
    let mut out: Vec<Result<Json, String>> = Vec::new();
    for i in 0..outputs.len()
        invariant
            out@.len() == i,
            forall|j: int| 0 <= j < i ==> reply_in(#[trigger] out@[j]) == gh_reply(outputs@[j]@),
    {
        out.push(read_reply(&outputs[i]));
    }
    assert(replies_in(out@) =~= gh_replies(output_models(outputs@)));
    out
}

fn ask(vars: &Vec<Variable>) -> (r: StatusStep)
    ensures
        r@ == StatusModel::Run(
            graphql_args(PR_SEARCH_QUERY@, crate::gh::variable_models(vars@)),
        ),
{
    StatusStep::Run(graphql_arguments(PR_SEARCH_QUERY, vars))
}

/// Open PRs requesting the user's review, plus open PRs the user has reviewed:
/// the next step, given what the runs of `gh` gave so far.
pub fn collect_status(opts: &StatusOptions, outputs: &Vec<Output>) -> (r: StatusStep)
    ensures
        r@ == status_run(opts@, gh_replies(output_models(outputs@))),
{
    let replies = read_replies(outputs);
    let ghost all = replies_in(replies@);
    let viewer = if replies.len() > 0 {
        assert(all[0] == reply_in(replies@[0]));
        Some(viewer_login_in(&replies[0]))
    } else {
        None
    };
    let from: usize = if same(opts.user.as_str(), "@me") { 1 } else { 0 };
    let (login, search_user) = match normalize_login(opts.user.as_str(), viewer) {
        LoginStep::AskViewer => {
            let none: Vec<Variable> = Vec::new();
            assert(crate::gh::variable_models(none@) =~= Seq::empty());
            return StatusStep::Run(graphql_arguments(VIEWER_QUERY, &none));
        },
        LoginStep::Failed(reason) => {
            return StatusStep::Failed(reason);
        },
        LoginStep::Known { login, search_user } => (login, search_user),
    };
    let asked = status_query(opts, cat("review-requested:", search_user.as_str()).as_str());
    match search_pull_requests(asked.as_str(), opts.limit, &replies, from) {
        SearchStep::Ask(vars) => ask(&vars),
        SearchStep::Failed(reason) => StatusStep::Failed(reason),
        SearchStep::Done { nodes: requested, used } => {
            proof {
                crate::search::law_search_done(
                    asked@,
                    opts.limit as int,
                    all,
                    from as int,
                    Seq::empty(),
                    None,
                );
            }
            if opts.no_reviewed {
                let none: Vec<Json> = Vec::new();
                assert(values(none@) =~= Seq::empty());
                let prs = list_pull_requests(opts, login.as_str(), &requested, &none);
                return StatusStep::Done { login, prs };
            }
            let done = status_query(opts, cat("reviewed-by:", login.as_str()).as_str());
            match search_pull_requests(done.as_str(), opts.limit, &replies, used) {
                SearchStep::Ask(vars) => ask(&vars),
                SearchStep::Failed(reason) => StatusStep::Failed(reason),
                SearchStep::Done { nodes: reviewed, used: _ } => {
                    let prs = list_pull_requests(opts, login.as_str(), &requested, &reviewed);
                    StatusStep::Done { login, prs }
                },
            }
        },
    }
}

proof fn lemma_node_url(hits: Seq<Hit>, url: Seq<char>)
    requires
        exists|i: int| 0 <= i < hits.len() && (#[trigger] hits[i]).url() == url,
    ensures
        node_at(hits, url).at("url"@).text_or_empty() == url,
    decreases hits.len(),
{
    if hits[0].url() != url {
        let i = choose|i: int| 0 <= i < hits.len() && (#[trigger] hits[i]).url() == url;
        assert(hits.skip(1)[i - 1] == hits[i]);
        lemma_node_url(hits.skip(1), url);
    }
}

proof fn lemma_summary_urls(hits: Seq<Hit>, login: Seq<char>, ignored: Seq<Seq<char>>)
    ensures
        ({
            let list = summaries(hits, login, ignored);
            &&& list.len() == first_seen(hits).len()
            &&& forall|i: int| 0 <= i < list.len() ==> (#[trigger] list[i]).url == first_seen(hits)[i]
        }),
{
    let list = summaries(hits, login, ignored);
    assert forall|i: int| 0 <= i < list.len() implies (#[trigger] list[i]).url == first_seen(
        hits,
    )[i] by {
        let url = first_seen(hits)[i];
        assert(first_seen(hits).contains(url));
        lemma_seen(hits, url);
        lemma_node_url(hits, url);
    }
}

/// Whether no two pull requests of a list have the same address.
pub open spec fn distinct_urls(list: Seq<PullRequestModel>) -> bool {
    forall|i: int, j: int|
        0 <= i < list.len() && 0 <= j < list.len() && i != j ==> (#[trigger] list[i]).url != (
        #[trigger] list[j]).url
}

proof fn lemma_filter_distinct(list: Seq<PullRequestModel>, keep: spec_fn(PullRequestModel) -> bool)
    requires
        distinct_urls(list),
    ensures
        distinct_urls(list.filter(keep)),
        forall|p: PullRequestModel| #[trigger]
            list.filter(keep).contains(p) <==> list.contains(p) && keep(p),
    decreases list.len(),
{
    reveal(Seq::filter);
    crate::lists::lemma_filter_members(list, keep);
    if list.len() > 0 {
        let rest = list.drop_last();
        let last = list.last();
        assert forall|i: int, j: int|
            0 <= i < rest.len() && 0 <= j < rest.len() && i != j implies (#[trigger] rest[i]).url
            != (#[trigger] rest[j]).url by {
            assert(list[i].url != list[j].url);
        }
        lemma_filter_distinct(rest, keep);
        let kept = rest.filter(keep);
        assert forall|i: int, j: int|
            0 <= i < list.filter(keep).len() && 0 <= j < list.filter(keep).len() && i
                != j implies (#[trigger] list.filter(keep)[i]).url != (#[trigger] list.filter(
            keep,
        )[j]).url by {
            if keep(last) {
                let a = if i < j { i } else { j };
                let b = if i < j { j } else { i };
                if b == kept.len() {
                    assert(kept.contains(kept[a]));
                    let k = choose|k: int| 0 <= k < rest.len() && rest[k] == kept[a];
                    assert(list[k].url != list[list.len() - 1].url);
                } else {
                    assert(kept[a].url != kept[b].url);
                }
            } else {
                assert(kept[i].url != kept[j].url);
            }
        }
    } else {
        assert(list.filter(keep) =~= list);
    }
}

/// The list holds each pull request that a search found with an address once, and
/// nothing else; drafts only where they are asked for.
pub proof fn law_listing_members(
    opts: OptionsModel,
    login: Seq<char>,
    requested: Seq<JsonModel>,
    reviewed: Seq<JsonModel>,
)
    ensures
        ({
            let list = listing(opts, login, requested, reviewed);
            let hits = hits_of(requested, reviewed);
            &&& distinct_urls(list)
            &&& forall|p: PullRequestModel| #[trigger]
                list.contains(p) <==> summaries(hits, login, opts.ignored).contains(p) && (
                opts.include_drafts || !p.is_draft)
            &&& forall|url: Seq<char>|
                (exists|p: PullRequestModel| #[trigger]
                    summaries(hits, login, opts.ignored).contains(p) && p.url == url)
                    <==> #[trigger] first_seen(hits).contains(url)
        }),
{
    let hits = hits_of(requested, reviewed);
    let all = summaries(hits, login, opts.ignored);
    let kept = without_drafts(all, opts.include_drafts);
    let keys = sort_keys(kept);
    let list = listing(opts, login, requested, reviewed);
    lemma_summary_urls(hits, login, opts.ignored);
    lemma_distinct(hits);
    assert(distinct_urls(all));
    if !opts.include_drafts {
        lemma_filter_distinct(all, |p: PullRequestModel| !p.is_draft);
    }
    crate::rank::lemma_rankable(keys, true);
    let places = ranking(keys, true);
    assert forall|i: int| 0 <= i < places.len() implies 0 <= #[trigger] places[i] < kept.len() by {
        assert(places.contains(places[i]));
    }
    assert forall|i: int, j: int|
        0 <= i < list.len() && 0 <= j < list.len() && i != j implies (#[trigger] list[i]).url != (
    #[trigger] list[j]).url by {
        if places[i] == places[j] {
            let a = if i < j { i } else { j };
            let b = if i < j { j } else { i };
            assert(crate::rank::precedes(keys, true, places[a], places[b]));
            crate::order::lemma_irreflexive(keys[places[a]].text);
        }
        assert(kept[places[i]].url != kept[places[j]].url);
    }
    assert forall|p: PullRequestModel| #[trigger] list.contains(p) <==> all.contains(p) && (
    opts.include_drafts || !p.is_draft) by {
        if list.contains(p) {
            let i = choose|i: int| 0 <= i < list.len() && list[i] == p;
            assert(kept[places[i]] == p);
            assert(kept.contains(p));
        }
        if kept.contains(p) {
            let k = choose|k: int| 0 <= k < kept.len() && kept[k] == p;
            assert(places.contains(k));
            let i = choose|i: int| 0 <= i < places.len() && places[i] == k;
            assert(list[i] == p);
        }
    }
    assert forall|url: Seq<char>|
        (exists|p: PullRequestModel| #[trigger] all.contains(p) && p.url == url)
            <==> #[trigger] first_seen(hits).contains(url) by {
        if first_seen(hits).contains(url) {
            let i = choose|i: int| 0 <= i < first_seen(hits).len() && first_seen(hits)[i] == url;
            assert(all[i].url == url);
            assert(all.contains(all[i]));
        }
        if exists|p: PullRequestModel| #[trigger] all.contains(p) && p.url == url {
            let p = choose|p: PullRequestModel| #[trigger] all.contains(p) && p.url == url;
            let i = choose|i: int| 0 <= i < all.len() && all[i] == p;
            assert(first_seen(hits)[i] == url);
        }
    }
}

/// The list goes by priority, and within a priority from the newest update to the
/// oldest.
pub proof fn law_listing_order(
    opts: OptionsModel,
    login: Seq<char>,
    requested: Seq<JsonModel>,
    reviewed: Seq<JsonModel>,
    i: int,
    j: int,
)
    requires
        0 <= i < j < listing(opts, login, requested, reviewed).len(),
    ensures
        ({
            let list = listing(opts, login, requested, reviewed);
            &&& priority(list[i]) <= priority(list[j])
            &&& priority(list[i]) == priority(list[j]) ==> !crate::order::before(
                list[i].updated_at,
                list[j].updated_at,
            )
        }),
{
    let all = summaries(hits_of(requested, reviewed), login, opts.ignored);
    let kept = without_drafts(all, opts.include_drafts);
    let keys = sort_keys(kept);
    crate::rank::lemma_rankable(keys, true);
    let places = ranking(keys, true);
    let a = places[i];
    let b = places[j];
    assert(places.contains(a) && places.contains(b));
    assert(crate::rank::precedes(keys, true, a, b));
    assert(keys[a].rank == priority(kept[a]) && keys[b].rank == priority(kept[b]));
    if crate::order::before(keys[b].text, keys[a].text) {
        crate::order::lemma_asymmetric(keys[b].text, keys[a].text);
    }
}

/// The priority is the one of the self status: requested, then asked for again,
/// then reviewed, then merely seen.
pub proof fn law_priority(p: PullRequestModel)
    ensures
        priority(p) == 0 <==> p.self_status() == "requested"@,
        priority(p) == 1 <==> p.self_status() == "reviewed+requested"@,
        priority(p) == 2 <==> p.self_status() == "reviewed"@,
        priority(p) == 3 <==> p.self_status() == "seen"@,
{
    reveal_strlit("reviewed+requested");
    reveal_strlit("reviewed");
    reveal_strlit("requested");
    reveal_strlit("seen");
    assert("reviewed"@.len() == 8);
    assert("reviewed+requested"@.len() == 18);
    assert("requested"@.len() == 9);
    assert("seen"@.len() == 4);
}

/// A list that is there, or failed, stays so: replies that come after do not
/// change it.
pub proof fn law_status_settled(
    opts: OptionsModel,
    replies: Seq<Result<JsonModel, Seq<char>>>,
    later: Seq<Result<JsonModel, Seq<char>>>,
)
    ensures
        !(status_run(opts, replies) is Run) ==> status_run(opts, replies + later) == status_run(
            opts,
            replies,
        ),
{
    let all = replies + later;
    if !(status_run(opts, replies) is Run) {
        let viewer = if replies.len() > 0 {
            Some(viewer_in(replies[0]))
        } else {
            None
        };
        if opts.user == "@me"@ {
            assert(replies.len() > 0);
            assert(all[0] == replies[0]);
        }
        if let LoginModel::Known { login, search_user } = login_for(opts.user, viewer) {
            let from: int = if opts.user == "@me"@ { 1 } else { 0 };
            let asked = search_text(opts, "review-requested:"@, search_user);
            let done = search_text(opts, "reviewed-by:"@, login);
            crate::search::law_search_settled(
                asked,
                opts.limit,
                replies,
                later,
                from,
                Seq::empty(),
                None,
            );
            crate::search::law_search_done(asked, opts.limit, replies, from, Seq::empty(), None);
            if let SearchModel::Done { nodes, used } = search_run(
                asked,
                opts.limit,
                replies,
                from,
                Seq::empty(),
                None,
            ) {
                crate::search::law_search_settled(
                    done,
                    opts.limit,
                    replies,
                    later,
                    used,
                    Seq::empty(),
                    None,
                );
            }
        }
    }
}

/// Whether one of the pages `from..to` has a result with this address.
pub open spec fn found_on(
    replies: Seq<Result<JsonModel, Seq<char>>>,
    from: int,
    to: int,
    url: Seq<char>,
) -> bool {
    exists|i: int, node: JsonModel|
        from <= i < to && #[trigger] on_page(replies[i], node) && node.at("url"@)
            == JsonModel::Text(url)
}

/// Whether one of the pages `from..to` has a draft with this address.
pub open spec fn draft_on(
    replies: Seq<Result<JsonModel, Seq<char>>>,
    from: int,
    to: int,
    url: Seq<char>,
) -> bool {
    exists|i: int, node: JsonModel|
        from <= i < to && #[trigger] on_page(replies[i], node) && node.at("url"@)
            == JsonModel::Text(url) && node.at("isDraft"@) == JsonModel::Bool(true)
}

/// Whether one of the pages `from..to` has a result that says of a pull request what
/// is said of it here.
pub open spec fn told_on(
    replies: Seq<Result<JsonModel, Seq<char>>>,
    from: int,
    to: int,
    p: PullRequestModel,
) -> bool {
    exists|i: int, node: JsonModel|
        from <= i < to && #[trigger] on_page(replies[i], node) && told_by(p, node)
}

/// Whether a step asks `gh` for a page of the search with this text.
pub open spec fn asks_for(step: StatusModel, query: Seq<char>) -> bool {
    step matches StatusModel::Run(args) && args.contains("searchQuery="@ + query) && args.contains(
        "query="@ + PR_SEARCH_QUERY@,
    )
}

/// Where the pages begin among the replies: after the viewer, who is asked for where
/// the user is `@me`.
pub open spec fn first_page(opts: OptionsModel) -> int {
    if opts.user == "@me"@ {
        1
    } else {
        0
    }
}

/// Whether the last reply is the one that completed the list.
pub open spec fn is_completed(
    opts: OptionsModel,
    replies: Seq<Result<JsonModel, Seq<char>>>,
) -> bool {
    &&& replies.len() > 0
    &&& status_run(opts, replies) is Done
    &&& status_run(opts, replies.drop_last()) is Run
}

/// How a completed list came to be: the searches, and the replies that each read.
proof fn lemma_completed(
    opts: OptionsModel,
    replies: Seq<Result<JsonModel, Seq<char>>>,
) -> (mid: int)
    requires
        is_completed(opts, replies),
    ensures
        ({
            let start = first_page(opts);
            let done = status_run(opts, replies);
            let login = done->login;
            let user = if opts.user == "@me"@ {
                "@me"@
            } else {
                login
            };
            let end = replies.len() as int;
            &&& start <= mid <= end
            &&& forall|i: int| start <= i < end ==> (#[trigger] replies[i]) is Ok
            &&& done->prs == listing(
                opts,
                login,
                pages(replies, start, mid),
                pages(replies, mid, end),
            )
            &&& forall|i: int|
                start <= i < mid ==> asks_for(
                    status_run(opts, #[trigger] replies.take(i)),
                    query_text(opts, "review-requested:"@ + user),
                )
            &&& forall|i: int|
                mid <= i < end ==> asks_for(
                    status_run(opts, #[trigger] replies.take(i)),
                    query_text(opts, "reviewed-by:"@ + login),
                )
            &&& opts.no_reviewed ==> mid == end
            &&& opts.limit > 0 ==> start < mid
            &&& opts.limit > 0 && !opts.no_reviewed ==> mid < end
        }),
{
    let start = first_page(opts);
    let end = replies.len() as int;
    let less = replies.drop_last();
    let viewer = Some(viewer_in(replies[0]));
    let known = login_for(opts.user, viewer);
    if opts.user == "@me"@ {
        assert(known is Known);
    }
    let login = known->login;
    let user = known->search_user;
    let asked = search_text(opts, "review-requested:"@, user);
    let done = search_text(opts, "reviewed-by:"@, login);
    let none = Seq::<JsonModel>::empty();
    law_search_done(asked, opts.limit, replies, start, none, None);
    let first = search_run(asked, opts.limit, replies, start, none, None);
    assert(first is Done);
    let mid = first->used;
    let requested = first->Done_nodes;
    assert(requested =~= pages(replies, start, mid));
    assert(less =~= replies.take(end - 1));
    assert forall|i: int| start <= i < mid implies asks_for(
        status_run(opts, #[trigger] replies.take(i)),
        query_text(opts, "review-requested:"@ + user),
    ) by {
        lemma_search_prefix(asked, opts.limit, replies, i, start, none, None);
        lemma_known_at(opts, replies, i);
        lemma_asks(asked, opts.limit, replies.take(i), start);
    }
    if opts.no_reviewed {
        assert(pages(replies, end, end) =~= none);
        if mid < end {
            lemma_search_prefix(asked, opts.limit, replies, end - 1, start, none, None);
            if start <= end - 1 {
                lemma_known_at(opts, replies, end - 1);
            }
        }
    } else {
        law_search_done(done, opts.limit, replies, mid, none, None);
        let second = search_run(done, opts.limit, replies, mid, none, None);
        assert(second is Done);
        let used = second->used;
        let reviewed = second->Done_nodes;
        assert(reviewed =~= pages(replies, mid, used));
        if used < end {
            lemma_search_prefix(asked, opts.limit, replies, end - 1, start, none, None);
            lemma_search_prefix(done, opts.limit, replies, end - 1, mid, none, None);
            lemma_known_at(opts, replies, end - 1);
        }
        assert(used == end);
        assert forall|i: int| mid <= i < end implies asks_for(
            status_run(opts, #[trigger] replies.take(i)),
            query_text(opts, "reviewed-by:"@ + login),
        ) by {
            lemma_search_prefix(asked, opts.limit, replies, i, start, none, None);
            lemma_search_prefix(done, opts.limit, replies, i, mid, none, None);
            lemma_known_at(opts, replies, i);
            lemma_asks(done, opts.limit, replies.take(i), mid);
        }
    }
    mid
}

/// Once the viewer is known, the first replies alone lead to the searches.
proof fn lemma_known_at(opts: OptionsModel, replies: Seq<Result<JsonModel, Seq<char>>>, n: int)
    requires
        first_page(opts) <= n <= replies.len(),
        replies.len() > 0,
        login_for(opts.user, Some(viewer_in(replies[0]))) is Known,
    ensures
        ({
            let known = login_for(opts.user, Some(viewer_in(replies[0])));
            status_run(opts, replies.take(n)) == searches_run(
                opts,
                known->login,
                known->search_user,
                replies.take(n),
                first_page(opts),
            )
        }),
{
    if n > 0 {
        assert(replies.take(n)[0] == replies[0]);
    }
}

/// A search that goes on asks for a page with its text.
proof fn lemma_asks(
    query: Seq<char>,
    limit: int,
    replies: Seq<Result<JsonModel, Seq<char>>>,
    from: int,
)
    requires
        0 <= from <= replies.len(),
        search_run(query, limit, replies, from, Seq::empty(), None) is Ask,
    ensures
        ({
            let vars = search_run(query, limit, replies, from, Seq::empty(), None)->Ask_0;
            asks_for(StatusModel::Run(graphql_args(PR_SEARCH_QUERY@, vars)), query)
        }),
{
    law_page_asked(query, limit, replies, from);
    let vars = search_run(query, limit, replies, from, Seq::empty(), None)->Ask_0;
    law_query_passed(PR_SEARCH_QUERY@, vars, 0);
    let args = graphql_args(PR_SEARCH_QUERY@, vars);
    reveal_strlit("searchQuery=");
    reveal_strlit("searchQuery");
    reveal_strlit("=");
    assert("searchQuery"@ + "="@ =~= "searchQuery="@);
    assert(args[5] == "searchQuery="@ + query);
    assert(args[3] == "query="@ + PR_SEARCH_QUERY@);
}

proof fn lemma_hit_urls(
    replies: Seq<Result<JsonModel, Seq<char>>>,
    start: int,
    mid: int,
    end: int,
    url: Seq<char>,
)
    requires
        0 <= start <= mid <= end <= replies.len(),
        forall|i: int| start <= i < end ==> (#[trigger] replies[i]) is Ok,
        url.len() > 0,
    ensures
        ({
            let hits = hits_of(pages(replies, start, mid), pages(replies, mid, end));
            &&& (exists|k: int| 0 <= k < hits.len() && (#[trigger] hits[k]).url() == url)
                <==> found_on(replies, start, end, url)
            &&& sources_at(hits, url).contains("requested"@) <==> found_on(replies, start, mid, url)
            &&& sources_at(hits, url).contains("reviewed"@) <==> found_on(replies, mid, end, url)
        }),
{
    let requested = pages(replies, start, mid);
    let reviewed = pages(replies, mid, end);
    let hits = hits_of(requested, reviewed);
    reveal_strlit("requested");
    reveal_strlit("reviewed");
    assert("requested"@.len() == 9 && "reviewed"@.len() == 8);
    assert forall|k: int| 0 <= k < hits.len() && (#[trigger] hits[k]).url() == url implies {
        &&& k < requested.len() ==> found_on(replies, start, mid, url) && found_on(
            replies,
            start,
            end,
            url,
        ) && hits[k].source == "requested"@
        &&& k >= requested.len() ==> found_on(replies, mid, end, url) && found_on(
            replies,
            start,
            end,
            url,
        ) && hits[k].source == "reviewed"@
    } by {
        let node = hits[k].node;
        assert(node.at("url"@) == JsonModel::Text(url));
        if k < requested.len() {
            assert(requested[k] == node);
            assert(requested.contains(node));
            lemma_on_pages(replies, start, mid, node);
            let i = choose|i: int| start <= i < mid && on_page(#[trigger] replies[i], node);
            assert(on_page(replies[i], node));
        } else {
            assert(reviewed[k - requested.len()] == node);
            assert(reviewed.contains(node));
            lemma_on_pages(replies, mid, end, node);
            let i = choose|i: int| mid <= i < end && on_page(#[trigger] replies[i], node);
            assert(on_page(replies[i], node));
        }
    }
    if found_on(replies, start, mid, url) {
        let (i, node) = choose|i: int, node: JsonModel|
            start <= i < mid && #[trigger] on_page(replies[i], node) && node.at("url"@)
                == JsonModel::Text(url);
        lemma_on_pages(replies, start, mid, node);
        assert(on_page(replies[i], node));
        assert(requested.contains(node));
        let k = choose|k: int| 0 <= k < requested.len() && requested[k] == node;
        assert(hits[k].url() == url);
        assert(found_by(hits[k], url, "requested"@));
    }
    if found_on(replies, mid, end, url) {
        let (i, node) = choose|i: int, node: JsonModel|
            mid <= i < end && #[trigger] on_page(replies[i], node) && node.at("url"@)
                == JsonModel::Text(url);
        lemma_on_pages(replies, mid, end, node);
        assert(on_page(replies[i], node));
        assert(reviewed.contains(node));
        let k = choose|k: int| 0 <= k < reviewed.len() && reviewed[k] == node;
        assert(hits[requested.len() + k].node == node);
        assert(hits[requested.len() + k].url() == url);
        assert(found_by(hits[requested.len() + k], url, "reviewed"@));
    }
    if found_on(replies, start, end, url) {
        let (i, node) = choose|i: int, node: JsonModel|
            start <= i < end && #[trigger] on_page(replies[i], node) && node.at("url"@)
                == JsonModel::Text(url);
        if i < mid {
            assert(found_on(replies, start, mid, url));
        } else {
            assert(found_on(replies, mid, end, url));
        }
    }
    if sources_at(hits, url).contains("requested"@) {
        let k = choose|k: int|
            0 <= k < hits.len() && found_by(#[trigger] hits[k], url, "requested"@);
        assert(hits[k].url() == url);
    }
    if sources_at(hits, url).contains("reviewed"@) {
        let k = choose|k: int| 0 <= k < hits.len() && found_by(#[trigger] hits[k], url, "reviewed"@);
        assert(hits[k].url() == url);
    }
}

/// A result that is taken for an address stands on one of the pages.
proof fn lemma_node_on_page(
    replies: Seq<Result<JsonModel, Seq<char>>>,
    start: int,
    mid: int,
    end: int,
    url: Seq<char>,
)
    requires
        0 <= start <= mid <= end <= replies.len(),
        forall|i: int| start <= i < end ==> (#[trigger] replies[i]) is Ok,
        url.len() > 0,
        found_on(replies, start, end, url),
    ensures
        ({
            let node = node_at(hits_of(pages(replies, start, mid), pages(replies, mid, end)), url);
            &&& node.at("url"@) == JsonModel::Text(url)
            &&& exists|i: int| start <= i < end && on_page(#[trigger] replies[i], node)
        }),
{
    let requested = pages(replies, start, mid);
    let reviewed = pages(replies, mid, end);
    let hits = hits_of(requested, reviewed);
    lemma_hit_urls(replies, start, mid, end, url);
    lemma_node_among(hits, url);
    let node = node_at(hits, url);
    let k = choose|k: int| 0 <= k < hits.len() && (#[trigger] hits[k]).node == node;
    if k < requested.len() {
        assert(requested[k] == node);
        assert(requested.contains(node));
        lemma_on_pages(replies, start, mid, node);
        let i = choose|i: int| start <= i < mid && on_page(#[trigger] replies[i], node);
        assert(on_page(replies[i], node));
    } else {
        assert(reviewed[k - requested.len()] == node);
        assert(reviewed.contains(node));
        lemma_on_pages(replies, mid, end, node);
        let i = choose|i: int| mid <= i < end && on_page(#[trigger] replies[i], node);
        assert(on_page(replies[i], node));
    }
}

proof fn lemma_node_among(hits: Seq<Hit>, url: Seq<char>)
    requires
        exists|i: int| 0 <= i < hits.len() && (#[trigger] hits[i]).url() == url,
    ensures
        exists|k: int| 0 <= k < hits.len() && (#[trigger] hits[k]).node == node_at(hits, url),
        node_at(hits, url).at("url"@).text_or_empty() == url,
    decreases hits.len(),
{
    lemma_node_url(hits, url);
    if hits[0].url() != url {
        let i = choose|i: int| 0 <= i < hits.len() && (#[trigger] hits[i]).url() == url;
        let rest = hits.skip(1);
        assert(rest[i - 1] == hits[i]);
        lemma_node_among(rest, url);
        let k = choose|k: int| 0 <= k < rest.len() && (#[trigger] rest[k]).node == node_at(rest, url);
        assert(hits[k + 1].node == node_at(hits, url));
    } else {
        assert(hits[0].node == node_at(hits, url));
    }
}

/// A completed list holds the pull requests of all the pages that were read, for both
/// searches, each once: whatever stands on a page with an address is listed, unless
/// it is a draft and drafts are not asked for, and nothing else is. What the list
/// says of a pull request is what a result on a page says of it.
pub proof fn law_all_pages_listed(opts: OptionsModel, replies: Seq<Result<JsonModel, Seq<char>>>)
    requires
        is_completed(opts, replies),
    ensures
        ({
            let prs = status_run(opts, replies)->prs;
            let start = first_page(opts);
            let end = replies.len() as int;
            &&& forall|url: Seq<char>|
                url.len() > 0 && #[trigger] found_on(replies, start, end, url) && (
                opts.include_drafts || !draft_on(replies, start, end, url)) ==> exists|k: int|
                    0 <= k < prs.len() && (#[trigger] prs[k]).url == url
            &&& forall|k: int|
                0 <= k < prs.len() ==> (#[trigger] prs[k]).url.len() > 0 && found_on(
                    replies,
                    start,
                    end,
                    prs[k].url,
                ) && (prs[k].is_draft ==> opts.include_drafts)
            &&& forall|k: int|
                0 <= k < prs.len() ==> told_on(replies, start, end, #[trigger] prs[k])
            &&& forall|j: int, k: int|
                0 <= j < k < prs.len() ==> (#[trigger] prs[j]).url != (#[trigger] prs[k]).url
        }),
{
    let mid = lemma_completed(opts, replies);
    let login = status_run(opts, replies)->login;
    let prs = status_run(opts, replies)->prs;
    let start = first_page(opts);
    let end = replies.len() as int;
    let requested = pages(replies, start, mid);
    let reviewed = pages(replies, mid, end);
    let hits = hits_of(requested, reviewed);
    let all = summaries(hits, login, opts.ignored);
    law_listing_members(opts, login, requested, reviewed);
    lemma_summary_urls(hits, login, opts.ignored);
    assert forall|k: int| 0 <= k < prs.len() implies (#[trigger] prs[k]).url.len() > 0 && found_on(
        replies,
        start,
        end,
        prs[k].url,
    ) && (prs[k].is_draft ==> opts.include_drafts) && told_on(replies, start, end, prs[k]) by {
        let p = prs[k];
        assert(prs.contains(p));
        assert(all.contains(p));
        let n = choose|n: int| 0 <= n < all.len() && all[n] == p;
        assert(first_seen(hits)[n] == p.url);
        assert(first_seen(hits).contains(p.url));
        lemma_seen(hits, p.url);
        lemma_hit_urls(replies, start, mid, end, p.url);
        lemma_node_on_page(replies, start, mid, end, p.url);
        let node = node_at(hits, p.url);
        law_summary_tells(node, login, in_order(sources_at(hits, p.url)), opts.ignored);
        let i = choose|i: int| start <= i < end && on_page(#[trigger] replies[i], node);
        assert(on_page(replies[i], node) && told_by(p, node));
    }
    assert forall|url: Seq<char>|
        url.len() > 0 && #[trigger] found_on(replies, start, end, url) && (opts.include_drafts
            || !draft_on(replies, start, end, url)) implies exists|k: int|
        0 <= k < prs.len() && (#[trigger] prs[k]).url == url by {
        lemma_hit_urls(replies, start, mid, end, url);
        lemma_seen(hits, url);
        let n = choose|n: int| 0 <= n < first_seen(hits).len() && first_seen(hits)[n] == url;
        let p = all[n];
        assert(all.contains(p));
        lemma_node_on_page(replies, start, mid, end, url);
        let node = node_at(hits, url);
        if p.is_draft {
            let i = choose|i: int| start <= i < end && on_page(#[trigger] replies[i], node);
            assert(on_page(replies[i], node));
            assert(node.at("isDraft"@) == JsonModel::Bool(true));
        }
        assert(prs.contains(p));
        let k = choose|k: int| 0 <= k < prs.len() && prs[k] == p;
        assert(prs[k].url == url);
    }
    assert forall|j: int, k: int| 0 <= j < k < prs.len() implies (#[trigger] prs[j]).url != (
    #[trigger] prs[k]).url by {}
}

/// Until the list is complete, first pages of pull requests that ask for the user's
/// review are asked for, then, unless they are not wanted, pages of those that the
/// user has reviewed. A listed pull request says which of the two found it, and that
/// a review is asked of the user where the first did.
pub proof fn law_searches_made(opts: OptionsModel, replies: Seq<Result<JsonModel, Seq<char>>>)
    requires
        is_completed(opts, replies),
    ensures
        ({
            let login = status_run(opts, replies)->login;
            let prs = status_run(opts, replies)->prs;
            let start = first_page(opts);
            let end = replies.len() as int;
            let user = if opts.user == "@me"@ {
                "@me"@
            } else {
                login
            };
            exists|mid: int|
                #![trigger replies.take(mid)]
                {
                    &&& start <= mid <= end
                    &&& forall|i: int|
                        start <= i < mid ==> asks_for(
                            status_run(opts, #[trigger] replies.take(i)),
                            query_text(opts, "review-requested:"@ + user),
                        )
                    &&& forall|i: int|
                        mid <= i < end ==> asks_for(
                            status_run(opts, #[trigger] replies.take(i)),
                            query_text(opts, "reviewed-by:"@ + login),
                        )
                    &&& opts.no_reviewed ==> mid == end
                    &&& opts.limit > 0 ==> start < mid
                    &&& opts.limit > 0 && !opts.no_reviewed ==> mid < end
                    &&& forall|k: int|
                        0 <= k < prs.len() ==> {
                            let p = #[trigger] prs[k];
                            &&& p.sources.contains("requested"@) <==> found_on(
                                replies,
                                start,
                                mid,
                                p.url,
                            )
                            &&& p.sources.contains("reviewed"@) <==> found_on(
                                replies,
                                mid,
                                end,
                                p.url,
                            )
                            &&& found_on(replies, start, mid, p.url) ==> p.requested_for_user
                        }
                }
        }),
{
    let mid = lemma_completed(opts, replies);
    let login = status_run(opts, replies)->login;
    let prs = status_run(opts, replies)->prs;
    let start = first_page(opts);
    let end = replies.len() as int;
    let requested = pages(replies, start, mid);
    let reviewed = pages(replies, mid, end);
    let hits = hits_of(requested, reviewed);
    let all = summaries(hits, login, opts.ignored);
    law_listing_members(opts, login, requested, reviewed);
    lemma_summary_urls(hits, login, opts.ignored);
    assert forall|k: int| 0 <= k < prs.len() implies {
        let p = #[trigger] prs[k];
        &&& p.sources.contains("requested"@) <==> found_on(replies, start, mid, p.url)
        &&& p.sources.contains("reviewed"@) <==> found_on(replies, mid, end, p.url)
        &&& found_on(replies, start, mid, p.url) ==> p.requested_for_user
    } by {
        let p = prs[k];
        assert(prs.contains(p));
        assert(all.contains(p));
        let n = choose|n: int| 0 <= n < all.len() && all[n] == p;
        assert(first_seen(hits)[n] == p.url);
        assert(first_seen(hits).contains(p.url));
        lemma_seen(hits, p.url);
        lemma_hit_urls(replies, start, mid, end, p.url);
        lemma_sources_finite(hits, p.url);
        crate::textmap::lemma_listable(sources_at(hits, p.url));
        assert(p.sources == in_order(sources_at(hits, p.url)));
        assert(p.sources.contains("requested"@) <==> sources_at(hits, p.url).contains(
            "requested"@,
        ));
        assert(p.sources.contains("reviewed"@) <==> sources_at(hits, p.url).contains("reviewed"@));
    }
    assert(replies.take(mid) == replies.take(mid));
}

proof fn lemma_sources_finite(hits: Seq<Hit>, url: Seq<char>)
    ensures
        sources_at(hits, url).finite(),
{
    let names = hits.map_values(|h: Hit| h.source);
    assert forall|s: Seq<char>| sources_at(hits, url).contains(s) implies #[trigger] names.to_set().contains(
        s,
    ) by {
        let i = choose|i: int| 0 <= i < hits.len() && found_by(#[trigger] hits[i], url, s);
        assert(names[i] == s);
        assert(names.contains(s));
    }
    vstd::seq_lib::seq_to_set_is_finite(names);
    vstd::set_lib::lemma_set_subset_finite(names.to_set(), sources_at(hits, url));
}

/// The list is for the user who is named: the viewer whom the first reply names
/// where that is `@me`, and otherwise the login without any `@` before it.
pub proof fn law_listed_for(opts: OptionsModel, replies: Seq<Result<JsonModel, Seq<char>>>)
    ensures
        status_run(opts, replies) matches StatusModel::Done { login, prs } ==> if opts.user == "@me"@ {
            replies.len() > 0 && (replies[0] matches Ok(data) && data.at("data"@).at("viewer"@).at(
                "login"@,
            ) == JsonModel::Text(login))
        } else {
            &&& login.is_suffix_of(opts.user)
            &&& forall|i: int|
                0 <= i < opts.user.len() - login.len() ==> #[trigger] opts.user[i] == '@'
            &&& login.len() > 0 ==> login[0] != '@'
        },
{
    crate::text::law_trimmed_start(opts.user, '@');
    if let StatusModel::Done { login, prs } = status_run(opts, replies) {
        if replies.len() > 0 {
            crate::gh::law_viewer(replies[0], login);
        }
    }
}

/// A reply that could not be had ends the work with its reason; one that could be
/// had does not, but for a reply on the viewer that names none.
pub proof fn law_failures(
    opts: OptionsModel,
    replies: Seq<Result<JsonModel, Seq<char>>>,
    reply: Result<JsonModel, Seq<char>>,
)
    requires
        status_run(opts, replies) is Run,
    ensures
        reply matches Err(reason) ==> status_run(opts, replies.push(reply)) == StatusModel::Failed(
            reason,
        ),
        reply is Ok && replies.len() >= first_page(opts) ==> !(status_run(
            opts,
            replies.push(reply),
        ) is Failed),
{
    let all = replies.push(reply);
    let start = first_page(opts);
    let none = Seq::<JsonModel>::empty();
    if replies.len() > 0 {
        assert(all[0] == replies[0]);
    }
    if replies.len() >= start {
        let viewer = if replies.len() > 0 {
            Some(viewer_in(replies[0]))
        } else {
            None
        };
        let known = login_for(opts.user, viewer);
        assert(known is Known);
        let asked = search_text(opts, "review-requested:"@, known->search_user);
        let done = search_text(opts, "reviewed-by:"@, known->login);
        lemma_search_pushed(asked, opts.limit, replies, reply, start, none, None);
        law_search_done(asked, opts.limit, replies, start, none, None);
        if let SearchModel::Done { nodes, used } = search_run(
            asked,
            opts.limit,
            replies,
            start,
            none,
            None,
        ) {
            lemma_search_pushed(done, opts.limit, replies, reply, used, none, None);
        } else if let SearchModel::Done { nodes, used } = search_run(
            asked,
            opts.limit,
            all,
            start,
            none,
            None,
        ) {
            law_search_done(asked, opts.limit, all, start, none, None);
            lemma_search_prefix(asked, opts.limit, all, replies.len() as int, start, none, None);
            assert(all.take(replies.len() as int) =~= replies);
            assert(used == all.len());
        }
    }
}

/// The bounds of a search: where no limit and no scope is set, nothing but the kind
/// of pull request is asked for; each repository and each owner adds its qualifier.
pub proof fn law_query(opts: OptionsModel, extra: Seq<char>, i: int)
    ensures
        ({
            let query = query_text(opts, extra);
            &&& "is:pr archived:false is:open "@.is_prefix_of(query)
            &&& (" "@ + extra).is_suffix_of(query)
            &&& 0 <= i < opts.repos.len() ==> occurs(" repo:"@ + opts.repos[i] + " "@, query)
            &&& 0 <= i < opts.owners.len() ==> occurs(" user:"@ + opts.owners[i] + " "@, query)
            &&& opts.repos.len() == 0 && opts.owners.len() == 0 ==> query
                == "is:pr archived:false is:open "@ + extra
        }),
{
    let head = seq!["is:pr"@, "archived:false"@, "is:open"@];
    let scope = qualifiers(opts.repos, opts.owners);
    let sep = " "@;
    let tail = seq![extra];
    let query = query_text(opts, extra);
    assert((head + scope).push(extra) =~= head + (scope + tail));
    law_joined(head, scope + tail, extra, sep);
    lemma_query_head();
    let start = joined(head, sep) + sep;
    assert(start == "is:pr archived:false is:open "@);
    assert(query == start + joined(scope + tail, sep));
    assert(query.subrange(0, start.len() as int) =~= start);
    if scope.len() > 0 {
        law_joined(scope, tail, extra, sep);
        assert(joined(scope + tail, sep) == joined(scope, sep) + sep + extra);
    } else {
        assert(scope + tail =~= tail);
        law_joined(tail, tail, extra, sep);
    }
    let ending = sep + extra;
    assert(query.subrange(query.len() - ending.len(), query.len() as int) =~= ending);
    if 0 <= i < opts.repos.len() {
        lemma_qualifier(head, scope, extra, i);
        reveal_strlit(" repo:");
        reveal_strlit("repo:");
        assert(sep + scope[i] + sep =~= " repo:"@ + opts.repos[i] + sep) by {
            reveal_strlit(" ");
        }
    }
    if 0 <= i < opts.owners.len() {
        let k = opts.repos.len() + i;
        lemma_qualifier(head, scope, extra, k);
        reveal_strlit(" user:");
        reveal_strlit("user:");
        assert(sep + scope[k] + sep =~= " user:"@ + opts.owners[i] + sep) by {
            reveal_strlit(" ");
        }
    }
}

proof fn lemma_query_head()
    ensures
        joined(seq!["is:pr"@, "archived:false"@, "is:open"@], " "@) + " "@
            == "is:pr archived:false is:open "@,
{
    reveal_with_fuel(joined, 3);
    let head = seq!["is:pr"@, "archived:false"@, "is:open"@];
    assert(head.drop_last() =~= seq!["is:pr"@, "archived:false"@]);
    assert(head.drop_last().drop_last() =~= seq!["is:pr"@]);
    reveal_strlit("is:pr");
    reveal_strlit("archived:false");
    reveal_strlit("is:open");
    reveal_strlit(" ");
    reveal_strlit("is:pr archived:false is:open ");
    assert("is:pr"@ + " "@ + "archived:false"@ + " "@ + "is:open"@ + " "@
        =~= "is:pr archived:false is:open "@);
}

/// A qualifier of the scope stands in a search between spaces.
proof fn lemma_qualifier(
    head: Seq<Seq<char>>,
    scope: Seq<Seq<char>>,
    extra: Seq<char>,
    k: int,
)
    requires
        head.len() > 0,
        0 <= k < scope.len(),
    ensures
        occurs(" "@ + scope[k] + " "@, joined((head + scope).push(extra), " "@)),
{
    let sep = " "@;
    let one = seq![scope[k]];
    let left = head + scope.take(k);
    let right = scope.skip(k + 1).push(extra);
    let all = (head + scope).push(extra);
    assert(all =~= left + (one + right));
    law_joined(left, one + right, scope[k], sep);
    law_joined(one, right, scope[k], sep);
    let part = sep + scope[k] + sep;
    assert(joined(all, sep) =~= joined(left, sep) + part + joined(right, sep));
    law_occurs(part, joined(all, sep));
}

/// Those of which a review is only asked stand above all others, then those that are
/// asked for again after the user's review, then those reviewed, then the rest; of
/// one kind, those that were updated later stand above.
pub proof fn law_list_order(
    opts: OptionsModel,
    replies: Seq<Result<JsonModel, Seq<char>>>,
    i: int,
    j: int,
)
    requires
        status_run(opts, replies) is Done,
        0 <= i < j < status_run(opts, replies)->prs.len(),
    ensures
        ({
            let a = status_run(opts, replies)->prs[i];
            let b = status_run(opts, replies)->prs[j];
            let a_done = a.my_latest_review is Some;
            let b_done = b.my_latest_review is Some;
            &&& b.requested_for_user && !b_done ==> a.requested_for_user && !a_done
            &&& b.requested_for_user ==> a.requested_for_user
            &&& b_done ==> a_done || a.requested_for_user
            &&& a_done == b_done && a.requested_for_user == b.requested_for_user
                ==> !crate::order::before(a.updated_at, b.updated_at)
        }),
{
    let start = first_page(opts);
    let viewer = if replies.len() > 0 {
        Some(viewer_in(replies[0]))
    } else {
        None
    };
    let known = login_for(opts.user, viewer);
    let asked = search_text(opts, "review-requested:"@, known->search_user);
    let done = search_text(opts, "reviewed-by:"@, known->login);
    let none = Seq::<JsonModel>::empty();
    let first = search_run(asked, opts.limit, replies, start, none, None);
    let requested = first->Done_nodes;
    let reviewed = if opts.no_reviewed {
        none
    } else {
        search_run(done, opts.limit, replies, first->used, none, None)->Done_nodes
    };
    assert(status_run(opts, replies)->prs == listing(opts, known->login, requested, reviewed));
    law_listing_order(opts, known->login, requested, reviewed, i, j);
}

/// Whether item `k` of the page `i` is the first on the pages from `from` on that has
/// this address.
pub open spec fn is_first_on(
    replies: Seq<Result<JsonModel, Seq<char>>>,
    from: int,
    i: int,
    items: Seq<JsonModel>,
    k: int,
    url: Seq<char>,
) -> bool {
    &&& from <= i < replies.len()
    &&& replies[i] matches Ok(data) && data.at("data"@).at("search"@).at("nodes"@)
        == JsonModel::Array(items)
    &&& 0 <= k < items.len()
    &&& items[k].at("url"@) == JsonModel::Text(url)
    &&& forall|j: int| 0 <= j < k ==> (#[trigger] items[j]).at("url"@) != JsonModel::Text(url)
    &&& forall|j: int, node: JsonModel|
        from <= j < i && #[trigger] on_page(replies[j], node) ==> node.at("url"@)
            != JsonModel::Text(url)
}

/// Where several results have one address, the first of them is the one that the list
/// shows, summarized for the user of the list without the ignored accounts.
pub proof fn law_first_result_shown(
    opts: OptionsModel,
    replies: Seq<Result<JsonModel, Seq<char>>>,
    i: int,
    items: Seq<JsonModel>,
    k: int,
    n: int,
)
    requires
        is_completed(opts, replies),
        0 <= n < status_run(opts, replies)->prs.len(),
        is_first_on(
            replies,
            first_page(opts),
            i,
            items,
            k,
            status_run(opts, replies)->prs[n].url,
        ),
    ensures
        ({
            let p = status_run(opts, replies)->prs[n];
            p == summary_of(items[k], status_run(opts, replies)->login, p.sources, opts.ignored)
        }),
{
    let mid = lemma_completed(opts, replies);
    let login = status_run(opts, replies)->login;
    let prs = status_run(opts, replies)->prs;
    let p = prs[n];
    let url = p.url;
    let start = first_page(opts);
    let end = replies.len() as int;
    let requested = pages(replies, start, mid);
    let reviewed = pages(replies, mid, end);
    let hits = hits_of(requested, reviewed);
    let all = summaries(hits, login, opts.ignored);
    law_listing_members(opts, login, requested, reviewed);
    lemma_summary_urls(hits, login, opts.ignored);
    assert(prs.contains(p));
    assert(all.contains(p));
    let a = choose|a: int| 0 <= a < all.len() && all[a] == p;
    assert(first_seen(hits)[a] == url);
    assert(first_seen(hits).contains(url));
    lemma_seen(hits, url);
    lemma_pages_join(replies, start, mid, end);
    let nodes = pages(replies, start, end);
    let m = lemma_first_of_pages(replies, start, end, i, items, k, url);
    assert(nodes == requested + reviewed);
    assert forall|j: int| 0 <= j < hits.len() implies (#[trigger] hits[j]).node == nodes[j] by {}
    assert forall|j: int| 0 <= j < m implies (#[trigger] hits[j]).url() != url by {
        assert(nodes[j].at("url"@) != JsonModel::Text(url));
        if hits[j].url() == url {
            assert(nodes[j].at("url"@).text_or_empty() == url);
        }
    }
    assert(hits[m].url() == url);
    lemma_node_is_first(hits, url, m);
}

proof fn lemma_pages_join(
    replies: Seq<Result<JsonModel, Seq<char>>>,
    from: int,
    mid: int,
    to: int,
)
    requires
        from <= mid <= to,
    ensures
        pages(replies, from, mid) + pages(replies, mid, to) == pages(replies, from, to),
    decreases mid - from,
{
    if from < mid {
        lemma_pages_join(replies, from + 1, mid, to);
        assert(pages(replies, from, mid) + pages(replies, mid, to) =~= pages(replies, from, to));
    } else {
        assert(pages(replies, from, mid) + pages(replies, mid, to) =~= pages(replies, from, to));
    }
}

proof fn lemma_first_of_pages(
    replies: Seq<Result<JsonModel, Seq<char>>>,
    from: int,
    to: int,
    i: int,
    items: Seq<JsonModel>,
    k: int,
    url: Seq<char>,
) -> (m: int)
    requires
        0 <= from <= to <= replies.len(),
        i < to,
        url.len() > 0,
        forall|j: int| from <= j < to ==> (#[trigger] replies[j]) is Ok,
        is_first_on(replies, from, i, items, k, url),
    ensures
        0 <= m < pages(replies, from, to).len(),
        pages(replies, from, to)[m] == items[k],
        forall|j: int|
            0 <= j < m ==> (#[trigger] pages(replies, from, to)[j]).at("url"@) != JsonModel::Text(
                url,
            ),
    decreases i - from,
{
    let all = pages(replies, from, to);
    let data = replies[from]->Ok_0;
    let first = page_nodes(data);
    let rest = pages(replies, from + 1, to);
    assert(all == first + rest);
    law_page_results(data);
    if i == from {
        let places = choose|places: Seq<int>|
            {
                &&& #[trigger] goes_up(places)
                &&& forall|k: int| #[trigger]
                    places.contains(k) <==> 0 <= k < items.len() && !(items[k] is Null)
                &&& page_nodes(data).len() == places.len()
                &&& forall|i: int|
                    0 <= i < places.len() ==> #[trigger] page_nodes(data)[i] == items[places[i]]
            };
        assert(!(items[k] is Null));
        assert(places.contains(k));
        let m = choose|m: int| 0 <= m < places.len() && places[m] == k;
        assert(all[m] == first[m]);
        assert forall|j: int| 0 <= j < m implies (#[trigger] all[j]).at("url"@) != JsonModel::Text(
            url,
        ) by {
            assert(all[j] == first[j]);
            assert(places[j] < places[m]);
            assert(places.contains(places[j]));
            assert(items[places[j]].at("url"@) != JsonModel::Text(url));
        }
        m
    } else {
        assert(is_first_on(replies, from + 1, i, items, k, url));
        let m = lemma_first_of_pages(replies, from + 1, to, i, items, k, url);
        assert(all[first.len() + m] == rest[m]);
        assert forall|j: int| 0 <= j < first.len() + m implies (#[trigger] all[j]).at("url"@)
            != JsonModel::Text(url) by {
            if j < first.len() {
                let node = first[j];
                assert(all[j] == node);
                assert(first.contains(node));
                assert(replies[from] == Ok::<JsonModel, Seq<char>>(data));
                assert(on_page(replies[from], node));
            } else {
                assert(all[j] == rest[j - first.len()]);
            }
        }
        first.len() + m
    }
}

proof fn lemma_node_is_first(hits: Seq<Hit>, url: Seq<char>, m: int)
    requires
        0 <= m < hits.len(),
        hits[m].url() == url,
        forall|j: int| 0 <= j < m ==> (#[trigger] hits[j]).url() != url,
    ensures
        node_at(hits, url) == hits[m].node,
    decreases m,
{
    if m > 0 {
        assert(hits[0].url() != url);
        let rest = hits.skip(1);
        assert forall|j: int| 0 <= j < m - 1 implies (#[trigger] rest[j]).url() != url by {
            assert(rest[j] == hits[j + 1]);
        }
        lemma_node_is_first(rest, url, m - 1);
    }
}

/// Whether a step asks for the page of a search that follows the pages `from..at`:
/// for as many results as are missing, up to a hundred, and from where the last page
/// ended.
pub open spec fn asks_next(
    step: StatusModel,
    limit: int,
    replies: Seq<Result<JsonModel, Seq<char>>>,
    from: int,
    at: int,
) -> bool {
    let missing = limit - pages(replies, from, at).len();
    &&& missing > 0
    &&& step matches StatusModel::Run(args) && {
        &&& args.contains(
            "first="@ + decimal_int(
                if missing < 100 {
                    missing
                } else {
                    100
                },
            ),
        )
        &&& at > from ==> (next_cursor(replies[at - 1]->Ok_0) matches Some(end) && args.contains(
            "after="@ + end,
        ))
    }
}

/// Whether a search is over after the pages `from..to`: enough results are there, or
/// the last page names no next one.
pub open spec fn is_over(
    limit: int,
    replies: Seq<Result<JsonModel, Seq<char>>>,
    from: int,
    to: int,
) -> bool {
    pages(replies, from, to).len() >= limit || (to > from && next_cursor(replies[to - 1]->Ok_0)
        is None)
}

/// Each of the two searches goes on as long as a next page is named and fewer results
/// are there than asked for, and no longer; each page is asked for from where the last
/// one ended.
pub proof fn law_searches_exhausted(
    opts: OptionsModel,
    replies: Seq<Result<JsonModel, Seq<char>>>,
)
    requires
        is_completed(opts, replies),
    ensures
        ({
            let start = first_page(opts);
            let end = replies.len() as int;
            exists|mid: int|
                #![trigger replies.take(mid)]
                {
                    &&& start <= mid <= end
                    &&& is_over(opts.limit, replies, start, mid)
                    &&& opts.no_reviewed ==> mid == end
                    &&& !opts.no_reviewed ==> is_over(opts.limit, replies, mid, end)
                    &&& forall|i: int|
                        start <= i < mid ==> asks_next(
                            status_run(opts, #[trigger] replies.take(i)),
                            opts.limit,
                            replies,
                            start,
                            i,
                        )
                    &&& forall|i: int|
                        mid <= i < end ==> asks_next(
                            status_run(opts, #[trigger] replies.take(i)),
                            opts.limit,
                            replies,
                            mid,
                            i,
                        )
                }
        }),
{
    let start = first_page(opts);
    let end = replies.len() as int;
    let known = login_for(opts.user, Some(viewer_in(replies[0])));
    let mid = lemma_completed(opts, replies);
    let asked = search_text(opts, "review-requested:"@, known->search_user);
    let done = search_text(opts, "reviewed-by:"@, known->login);
    let none = Seq::<JsonModel>::empty();
    assert(known is Known);
    law_search_done(asked, opts.limit, replies, start, none, None);
    let first = search_run(asked, opts.limit, replies, start, none, None);
    let used = first->used;
    assert(first->Done_nodes =~= pages(replies, start, used));
    assert forall|i: int| start <= i < used implies asks_next(
        status_run(opts, #[trigger] replies.take(i)),
        opts.limit,
        replies,
        start,
        i,
    ) by {
        lemma_search_prefix(asked, opts.limit, replies, i, start, none, None);
        lemma_known_at(opts, replies, i);
        lemma_asks_next(asked, opts.limit, replies, start, i);
    }
    let less = replies.drop_last();
    assert(less =~= replies.take(end - 1));
    if opts.no_reviewed {
        if used < end {
            lemma_search_prefix(asked, opts.limit, replies, end - 1, start, none, None);
            if start <= end - 1 {
                lemma_known_at(opts, replies, end - 1);
            }
        }
    } else {
        law_search_done(done, opts.limit, replies, used, none, None);
        let second = search_run(done, opts.limit, replies, used, none, None);
        assert(second->Done_nodes =~= pages(replies, used, second->used));
        if second->used < end {
            lemma_search_prefix(asked, opts.limit, replies, end - 1, start, none, None);
            lemma_search_prefix(done, opts.limit, replies, end - 1, used, none, None);
            lemma_known_at(opts, replies, end - 1);
        }
        assert forall|i: int| used <= i < end implies asks_next(
            status_run(opts, #[trigger] replies.take(i)),
            opts.limit,
            replies,
            used,
            i,
        ) by {
            lemma_search_prefix(asked, opts.limit, replies, i, start, none, None);
            lemma_search_prefix(done, opts.limit, replies, i, used, none, None);
            lemma_known_at(opts, replies, i);
            lemma_asks_next(done, opts.limit, replies, used, i);
        }
    }
    assert(replies.take(used) == replies.take(used));
}

proof fn lemma_asks_next(
    query: Seq<char>,
    limit: int,
    replies: Seq<Result<JsonModel, Seq<char>>>,
    from: int,
    at: int,
)
    requires
        0 <= from <= at <= replies.len(),
        search_run(query, limit, replies.take(at), from, Seq::empty(), None) is Ask,
    ensures
        ({
            let vars = search_run(query, limit, replies.take(at), from, Seq::empty(), None)->Ask_0;
            asks_next(
                StatusModel::Run(graphql_args(PR_SEARCH_QUERY@, vars)),
                limit,
                replies,
                from,
                at,
            )
        }),
{
    let head = replies.take(at);
    law_page_asked(query, limit, head, from);
    law_search_asks(query, limit, head, from, Seq::empty(), None);
    lemma_same_pages(replies, at, from);
    let vars = search_run(query, limit, head, from, Seq::empty(), None)->Ask_0;
    law_query_passed(PR_SEARCH_QUERY@, vars, 1);
    let args = graphql_args(PR_SEARCH_QUERY@, vars);
    let first = vars[1].value->Int_0;
    reveal_strlit("first=");
    reveal_strlit("first");
    reveal_strlit("after=");
    reveal_strlit("after");
    reveal_strlit("=");
    assert("first"@ + "="@ =~= "first="@);
    assert("after"@ + "="@ =~= "after="@);
    assert(args[7] == "first="@ + decimal_int(first));
    assert(args.contains("first="@ + decimal_int(first)));
    if at > from {
        law_query_passed(PR_SEARCH_QUERY@, vars, 2);
        assert(head.last() == replies[at - 1]);
        let end = vars[2].value->Str_0;
        assert(args[9] == "after="@ + end);
        assert(args.contains("after="@ + end));
        lemma_last_page(query, limit, head, from, Seq::empty(), None);
        law_next_page(
            replies[at - 1]->Ok_0,
            next_cursor(replies[at - 1]->Ok_0)->0,
        );
    }
}

proof fn lemma_same_pages(replies: Seq<Result<JsonModel, Seq<char>>>, at: int, from: int)
    requires
        0 <= from <= at <= replies.len(),
    ensures
        pages(replies.take(at), from, at) == pages(replies, from, at),
    decreases at - from,
{
    if from < at {
        lemma_same_pages(replies, at, from + 1);
        assert(replies.take(at)[from] == replies[from]);
    }
}

/// A repository or an owner more adds its qualifier to a search, and nothing else.
pub proof fn law_query_grows(opts: OptionsModel, extra: Seq<char>, name: Seq<char>)
    ensures
        query_text(OptionsModel { repos: opts.repos.push(name), ..opts }, extra).len()
            == query_text(opts, extra).len() + " repo:"@.len() + name.len(),
        query_text(OptionsModel { owners: opts.owners.push(name), ..opts }, extra).len()
            == query_text(opts, extra).len() + " user:"@.len() + name.len(),
{
    reveal_strlit(" repo:");
    reveal_strlit("repo:");
    reveal_strlit(" user:");
    reveal_strlit("user:");
    reveal_strlit(" ");
    let sep = " "@;
    let head = seq!["is:pr"@, "archived:false"@, "is:open"@];
    let repos = opts.repos.map_values(|r: Seq<char>| "repo:"@ + r);
    let owners = opts.owners.map_values(|o: Seq<char>| "user:"@ + o);
    let r = "repo:"@ + name;
    let o = "user:"@ + name;
    assert(opts.repos.push(name).map_values(|r: Seq<char>| "repo:"@ + r) =~= repos.push(r));
    assert(opts.owners.push(name).map_values(|o: Seq<char>| "user:"@ + o) =~= owners.push(o));
    lemma_one_more(head + repos, r, owners.push(extra), sep);
    assert((head + (repos.push(r) + owners)).push(extra) =~= (head + repos).push(r)
        + owners.push(extra));
    assert((head + (repos + owners)).push(extra) =~= head + repos + owners.push(extra));
    lemma_one_more(head + repos + owners, o, seq![extra], sep);
    assert((head + (repos + owners.push(o))).push(extra) =~= (head + repos + owners).push(o)
        + seq![extra]);
    assert((head + (repos + owners)).push(extra) =~= head + repos + owners + seq![extra]);
}

proof fn lemma_one_more(a: Seq<Seq<char>>, t: Seq<char>, b: Seq<Seq<char>>, sep: Seq<char>)
    requires
        a.len() > 0,
        b.len() > 0,
    ensures
        joined(a.push(t) + b, sep).len() == joined(a + b, sep).len() + sep.len() + t.len(),
{
    law_joined(a.push(t), b, t, sep);
    law_joined(a, b, t, sep);
    law_joined(a, seq![t], t, sep);
    assert(a + seq![t] =~= a.push(t));
}

} // verus!
