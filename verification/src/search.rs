//! Paging through a GitHub search.
use vstd::prelude::*;

use crate::gh::{reply_in, variable_models, GqlModel, GqlVar, Variable, VariableModel};
use crate::json::{values, Json, JsonModel};
use crate::lists::{goes_up, lemma_filter_members, lemma_filter_places};

verus! {

/// The query for one page of pull requests.
pub const PR_SEARCH_QUERY: &'static str = r#"
query($searchQuery: String!, $first: Int!, $after: String) {
  search(query: $searchQuery, type: ISSUE, first: $first, after: $after) {
    pageInfo {
      hasNextPage
      endCursor
    }
    nodes {
      ... on PullRequest {
        author {
          login
        }
        createdAt
        isDraft
        number
        repository {
          nameWithOwner
        }
        reviewDecision
        reviewRequests(first: 100) {
          nodes {
            requestedReviewer {
              __typename
              ... on User {
                login
              }
              ... on Team {
                name
                slug
                organization {
                  login
                }
              }
            }
          }
        }
        reviews(last: 100) {
          nodes {
            author {
              login
            }
            state
            submittedAt
            url
          }
        }
        state
        title
        updatedAt
        url
      }
    }
  }
}
"#;

/// What the next step of a search is.
pub enum SearchStep {
    /// Ask for a page with these variables.
    Ask(Vec<Variable>),
    /// The search is over: its results, and how many of the replies are read.
    Done { nodes: Vec<Json>, used: usize },
    /// A page could not be had.
    Failed(String),
}

/// What the next step of a search is.
#[verifier::ext_equal]
pub enum SearchModel {
    Ask(Seq<VariableModel>),
    Done { nodes: Seq<JsonModel>, used: int },
    Failed(Seq<char>),
}

impl View for SearchStep {
    type V = SearchModel;

    open spec fn view(&self) -> SearchModel {
        match self {
            SearchStep::Ask(vars) => SearchModel::Ask(variable_models(vars@)),
            SearchStep::Done { nodes, used } => SearchModel::Done {
                nodes: values(nodes@),
                used: *used as int,
            },
            SearchStep::Failed(reason) => SearchModel::Failed(reason@),
        }
    }
}

/// Replies as plain data.
pub open spec fn replies_in(list: Seq<Result<Json, String>>) -> Seq<Result<JsonModel, Seq<char>>> {
    list.map_values(|r: Result<Json, String>| reply_in(r))
}

/// The results on a page: its nodes without the nulls.
pub open spec fn page_nodes(data: JsonModel) -> Seq<JsonModel> {
    data.at("data"@).at("search"@).at("nodes"@).items_or_none().filter(
        |n: JsonModel| n != JsonModel::Null,
    )
}

/// Where the next page starts, if the page says that there is one.
pub open spec fn next_cursor(data: JsonModel) -> Option<Seq<char>> {
    let info = data.at("data"@).at("search"@).at("pageInfo"@);
    let end = info.at("endCursor"@).text_or_empty();
    if info.at("hasNextPage"@).is_true() && end.len() > 0 {
        Some(end)
    } else {
        None
    }
}

/// How many results to ask for when `have` of `limit` are there.
pub open spec fn page_size(limit: int, have: int) -> int {
    if limit - have < 100 {
        limit - have
    } else {
        100
    }
}

/// The variables that ask for a page.
pub open spec fn page_variables(
    query: Seq<char>,
    first: int,
    cursor: Option<Seq<char>>,
) -> Seq<VariableModel> {
    let base = seq![
        VariableModel { key: "searchQuery"@, value: GqlModel::Str(query) },
        VariableModel { key: "first"@, value: GqlModel::Int(first) },
    ];
    match cursor {
        Some(after) => base.push(VariableModel { key: "after"@, value: GqlModel::Str(after) }),
        None => base,
    }
}

/// The next step of a search that has `nodes` so far and goes on at `cursor`,
/// with the replies from `from` on still to be read. It is over when `limit`
/// results are there or no page follows; results beyond that are not cut off.
pub open spec fn search_run(
    query: Seq<char>,
    limit: int,
    replies: Seq<Result<JsonModel, Seq<char>>>,
    from: int,
    nodes: Seq<JsonModel>,
    cursor: Option<Seq<char>>,
) -> SearchModel
    decreases replies.len() - from,
{
    if nodes.len() >= limit {
        SearchModel::Done { nodes, used: from }
    } else if from >= replies.len() {
        SearchModel::Ask(page_variables(query, page_size(limit, nodes.len() as int), cursor))
    } else {
        match replies[from] {
            Err(reason) => SearchModel::Failed(reason),
            Ok(data) => {
                let more = nodes + page_nodes(data);
                match next_cursor(data) {
                    None => SearchModel::Done { nodes: more, used: from + 1 },
                    Some(end) => search_run(query, limit, replies, from + 1, more, Some(end)),
                }
            },
        }
    }
}

fn read_page(data: &Json, nodes: &mut Vec<Json>) -> (cursor: Option<String>)
    ensures
        values(final(nodes)@) == values(old(nodes)@) + page_nodes(data@),
        crate::json::text_in(cursor) == next_cursor(data@),
{
    let ghost keep = |n: JsonModel| n != JsonModel::Null;
    let ghost had = values(nodes@);
    reveal(Seq::filter);
    let search = match data.get("data") {
        Some(inner) => inner.get("search"),
        None => None,
    };
    let search = match search {
        Some(search) => search,
        None => {
            assert(page_nodes(data@) =~= Seq::empty());
            assert(had + page_nodes(data@) =~= had);
            return None;
        },
    };
    if let Some(list) = search.items_at("nodes") {
        let ghost all = values(list@);
        assert(had + all.take(0).filter(keep) =~= had);
        for i in 0..list.len()
            invariant
                all == values(list@),
                keep == (|n: JsonModel| n != JsonModel::Null),
                values(nodes@) == had + all.take(i as int).filter(keep),
        {
            reveal(Seq::filter);
            let ghost earlier = values(nodes@);
            proof {
                assert(all.take(i + 1).drop_last() =~= all.take(i as int));
                assert(all.take(i + 1).last() == list@[i as int]@);
            }
            if !list[i].is_null() {
                nodes.push(list[i].copy());
                assert(values(nodes@) =~= earlier.push(list@[i as int]@));
            }
            assert(values(nodes@) =~= had + all.take(i + 1).filter(keep));
        }
        assert(all.take(all.len() as int) =~= all);
    } else {
        assert(page_nodes(data@) =~= Seq::empty());
        assert(had + page_nodes(data@) =~= had);
    }
    match search.get("pageInfo") {
        Some(info) => {
            if info.true_at("hasNextPage") {
                let end = info.text_or_empty_at("endCursor");
                if end.as_str().is_empty() {
                    None
                } else {
                    Some(end)
                }
            } else {
                None
            }
        },
        None => None,
    }
}

fn page_request(query: &str, first: i64, cursor: &Option<String>) -> (r: Vec<Variable>)
    ensures
        variable_models(r@) == page_variables(
            query@,
            first as int,
            crate::json::text_in(*cursor),
        ),
{
    let mut vars: Vec<Variable> = Vec::new();
    vars.push(Variable { key: "searchQuery".to_owned(), value: GqlVar::Str(query.to_owned()) });
    vars.push(Variable { key: "first".to_owned(), value: GqlVar::Int(first) });
    if let Some(after) = cursor {
        vars.push(Variable { key: "after".to_owned(), value: GqlVar::Str(after.clone()) });
    }
    assert(variable_models(vars@) =~= page_variables(
        query@,
        first as int,
        crate::json::text_in(*cursor),
    ));
    vars
}

/// Page through a GitHub search until `limit` nodes are collected: what to ask
/// next, given the replies from `from` on.
pub fn search_pull_requests(
    search_query: &str,
    limit: usize,
    replies: &Vec<Result<Json, String>>,
    from: usize,
) -> (r: SearchStep)
    requires
        from <= replies@.len(),
    ensures
        r@ == search_run(
            search_query@,
            limit as int,
            replies_in(replies@),
            from as int,
            Seq::empty(),
            None,
        ),
{
    let mut nodes: Vec<Json> = Vec::new();
    let mut cursor: Option<String> = None;
    let mut at: usize = from;
    let ghost all = replies_in(replies@);
    let ghost want = search_run(
        search_query@,
        limit as int,
        all,
        from as int,
        Seq::empty(),
        None,
    );
    assert(values(nodes@) =~= Seq::empty());
    while nodes.len() < limit
        invariant
            all == replies_in(replies@),
            from <= at <= replies@.len(),
            want == search_run(
                search_query@,
                limit as int,
                all,
                from as int,
                Seq::empty(),
                None,
            ),
            want == search_run(
                search_query@,
                limit as int,
                all,
                at as int,
                values(nodes@),
                crate::json::text_in(cursor),
            ),
        decreases replies@.len() - at,
    {
        if at == replies.len() {
            let left: usize = limit - nodes.len();
            let first: i64 = if left < 100 { left as i64 } else { 100 };
            return SearchStep::Ask(page_request(search_query, first, &cursor));
        }
        assert(all[at as int] == reply_in(replies@[at as int]));
        match &replies[at] {
            Err(reason) => {
                return SearchStep::Failed(reason.clone());
            },
            Ok(data) => {
                let next = read_page(data, &mut nodes);
                at += 1;
                if next.is_none() {
                    return SearchStep::Done { nodes, used: at };
                }
                cursor = next;
            },
        }
    }
    SearchStep::Done { nodes, used: at }
}

/// The results on the pages `from..to`, in order.
pub open spec fn pages(
    replies: Seq<Result<JsonModel, Seq<char>>>,
    from: int,
    to: int,
) -> Seq<JsonModel>
    decreases to - from,
{
    if from >= to {
        Seq::empty()
    } else {
        page_nodes(replies[from]->Ok_0) + pages(replies, from + 1, to)
    }
}

/// A finished search has read good replies only; its results are those of the
/// pages it read, in order; and it stopped because the limit was reached or
/// because the last page it read named no next one.
pub proof fn law_search_done(
    query: Seq<char>,
    limit: int,
    replies: Seq<Result<JsonModel, Seq<char>>>,
    from: int,
    nodes: Seq<JsonModel>,
    cursor: Option<Seq<char>>,
)
    requires
        0 <= from <= replies.len(),
    ensures
        search_run(query, limit, replies, from, nodes, cursor) matches SearchModel::Done {
            nodes: all,
            used,
        } ==> {
            &&& from <= used <= replies.len()
            &&& forall|i: int| from <= i < used ==> (#[trigger] replies[i]) is Ok
            &&& all == nodes + pages(replies, from, used)
            &&& all.len() >= limit || (used > from && next_cursor(replies[used - 1]->Ok_0) is None)
        },
    decreases replies.len() - from,
{
    if nodes.len() >= limit {
        assert(nodes + pages(replies, from, from) =~= nodes);
    } else if from < replies.len() && replies[from] is Ok {
        let data = replies[from]->Ok_0;
        let more = nodes + page_nodes(data);
        assert(pages(replies, from + 1, from + 1) =~= Seq::empty());
        assert(pages(replies, from, from + 1) =~= page_nodes(data));
        if let Some(end) = next_cursor(data) {
            law_search_done(query, limit, replies, from + 1, more, Some(end));
            if let SearchModel::Done { nodes: all, used } = search_run(
                query,
                limit,
                replies,
                from + 1,
                more,
                Some(end),
            ) {
                assert(all =~= nodes + pages(replies, from, used));
                if used == from + 1 {
                    assert(all =~= more);
                }
            }
        }
    }
}

/// A search that goes on has fewer results than its limit, asks for at least one
/// and at most a hundred of those that are missing, and goes on where the last
/// page ended.
pub proof fn law_search_asks(
    query: Seq<char>,
    limit: int,
    replies: Seq<Result<JsonModel, Seq<char>>>,
    from: int,
    nodes: Seq<JsonModel>,
    cursor: Option<Seq<char>>,
)
    requires
        0 <= from <= replies.len(),
    ensures
        search_run(query, limit, replies, from, nodes, cursor) matches SearchModel::Ask(vars) ==> {
            let have = nodes.len() + pages(replies, from, replies.len() as int).len();
            let first = page_size(limit, have as int);
            &&& have < limit
            &&& 1 <= first <= 100
            &&& first <= limit - have
            &&& vars == page_variables(
                query,
                first,
                if from < replies.len() {
                    next_cursor(replies.last()->Ok_0)
                } else {
                    cursor
                },
            )
        },
    decreases replies.len() - from,
{
    if nodes.len() < limit && from < replies.len() && replies[from] is Ok {
        let data = replies[from]->Ok_0;
        if let Some(end) = next_cursor(data) {
            law_search_asks(query, limit, replies, from + 1, nodes + page_nodes(data), Some(end));
        }
    }
}

/// Whether no page holds more results than were asked for when `have` were there.
pub open spec fn pages_fit(
    limit: int,
    replies: Seq<Result<JsonModel, Seq<char>>>,
    from: int,
    have: int,
) -> bool
    decreases replies.len() - from,
{
    from >= replies.len() || replies[from] is Err || ({
        let n = page_nodes(replies[from]->Ok_0).len();
        n <= page_size(limit, have) && pages_fit(limit, replies, from + 1, have + n)
    })
}

/// Where no page holds more results than were asked for, a search never exceeds
/// its limit.
pub proof fn law_search_limit(
    query: Seq<char>,
    limit: int,
    replies: Seq<Result<JsonModel, Seq<char>>>,
    from: int,
    nodes: Seq<JsonModel>,
    cursor: Option<Seq<char>>,
)
    requires
        0 <= from <= replies.len(),
        nodes.len() <= limit,
        pages_fit(limit, replies, from, nodes.len() as int),
    ensures
        search_run(query, limit, replies, from, nodes, cursor) matches SearchModel::Done {
            nodes: all,
            used,
        } ==> all.len() <= limit,
    decreases replies.len() - from,
{
    if nodes.len() < limit && from < replies.len() && replies[from] is Ok {
        let data = replies[from]->Ok_0;
        if let Some(end) = next_cursor(data) {
            law_search_limit(query, limit, replies, from + 1, nodes + page_nodes(data), Some(end));
        }
    }
}

/// A search that is over stays so: replies that come after do not change it.
pub proof fn law_search_settled(
    query: Seq<char>,
    limit: int,
    replies: Seq<Result<JsonModel, Seq<char>>>,
    later: Seq<Result<JsonModel, Seq<char>>>,
    from: int,
    nodes: Seq<JsonModel>,
    cursor: Option<Seq<char>>,
)
    requires
        0 <= from <= replies.len(),
    ensures
        !(search_run(query, limit, replies, from, nodes, cursor) is Ask) ==> search_run(
            query,
            limit,
            replies + later,
            from,
            nodes,
            cursor,
        ) == search_run(query, limit, replies, from, nodes, cursor),
    decreases replies.len() - from,
{
    if nodes.len() < limit && from < replies.len() {
        assert((replies + later)[from] == replies[from]);
        if replies[from] is Ok {
            let data = replies[from]->Ok_0;
            if let Some(end) = next_cursor(data) {
                law_search_settled(
                    query,
                    limit,
                    replies,
                    later,
                    from + 1,
                    nodes + page_nodes(data),
                    Some(end),
                );
            }
        }
    }
}

/// Whether a reply is a page whose list of nodes holds `node`.
pub open spec fn on_page(reply: Result<JsonModel, Seq<char>>, node: JsonModel) -> bool {
    reply matches Ok(data) && data.at("data"@).at("search"@).at("nodes"@) matches JsonModel::Array(
        items,
    ) && items.contains(node)
}

/// The results of a page are the items of its array of nodes that are not null, each
/// as often as it stands there and in the same order; a page without nulls gives
/// all of them, and a page without an array gives none.
pub proof fn law_page_results(data: JsonModel)
    ensures
        match data.at("data"@).at("search"@).at("nodes"@) {
            JsonModel::Array(items) => {
                &&& exists|places: Seq<int>|
                    {
                        &&& #[trigger] goes_up(places)
                        &&& forall|k: int| #[trigger]
                            places.contains(k) <==> 0 <= k < items.len() && !(items[k] is Null)
                        &&& page_nodes(data).len() == places.len()
                        &&& forall|i: int|
                            0 <= i < places.len() ==> #[trigger] page_nodes(data)[i]
                                == items[places[i]]
                    }
                &&& forall|n: JsonModel| #[trigger]
                    page_nodes(data).contains(n) <==> items.contains(n) && !(n is Null)
                &&& (forall|k: int| 0 <= k < items.len() ==> !((#[trigger] items[k]) is Null))
                    ==> page_nodes(data) == items
            },
            _ => page_nodes(data).len() == 0,
        },
{
    let keep = |n: JsonModel| n != JsonModel::Null;
    match data.at("data"@).at("search"@).at("nodes"@) {
        JsonModel::Array(items) => {
            let places = lemma_filter_places(items, keep);
            lemma_filter_members(items, keep);
            let results = page_nodes(data);
            assert(results == items.filter(keep));
            assert forall|k: int| #[trigger] places.contains(k) <==> 0 <= k < items.len() && !(
            items[k] is Null) by {
                assert(keep(items[k]) == (items[k] != JsonModel::Null));
            }
            assert(goes_up(places));
            if forall|k: int| 0 <= k < items.len() ==> !((#[trigger] items[k]) is Null) {
                lemma_all_places(places, items.len() as int);
                assert(results =~= items);
            }
        },
        _ => {
            let results = page_nodes(data);
            if results.len() > 0 {
                lemma_filter_members(Seq::<JsonModel>::empty(), keep);
                assert(results.contains(results[0]));
            }
        },
    }
}

/// Places that go up and are all those below `n` are the numbers below `n`.
proof fn lemma_all_places(places: Seq<int>, n: int)
    requires
        goes_up(places),
        n >= 0,
        forall|k: int| #[trigger] places.contains(k) <==> 0 <= k < n,
    ensures
        places.len() == n,
        forall|i: int| 0 <= i < n ==> #[trigger] places[i] == i,
    decreases n,
{
    if n == 0 {
        if places.len() > 0 {
            assert(places.contains(places[0]));
        }
    } else {
        assert(places.contains(n - 1));
        let at = choose|i: int| 0 <= i < places.len() && places[i] == n - 1;
        if at < places.len() - 1 {
            assert(places.contains(places[at + 1]));
            assert(places[at] < places[at + 1]);
        }
        let rest = places.drop_last();
        assert forall|k: int| #[trigger] rest.contains(k) <==> 0 <= k < n - 1 by {
            if rest.contains(k) {
                let i = choose|i: int| 0 <= i < rest.len() && rest[i] == k;
                assert(places[i] == k);
                assert(places.contains(k));
                assert(places[i] < places[places.len() - 1]);
            }
            if 0 <= k < n - 1 {
                assert(places.contains(k));
                let i = choose|i: int| 0 <= i < places.len() && places[i] == k;
                assert(rest[i] == k);
            }
        }
        lemma_all_places(rest, n - 1);
        assert forall|i: int| 0 <= i < n implies #[trigger] places[i] == i by {
            if i < n - 1 {
                assert(rest[i] == i);
            }
        }
    }
}

/// A next page follows exactly where the page says so and names where it starts.
pub proof fn law_next_page(data: JsonModel, end: Seq<char>)
    ensures
        next_cursor(data) == Some(end) <==> {
            let info = data.at("data"@).at("search"@).at("pageInfo"@);
            &&& info.at("hasNextPage"@) == JsonModel::Bool(true)
            &&& info.at("endCursor"@) == JsonModel::Text(end)
            &&& end.len() > 0
        },
{
}

/// A page is asked for by the text of the search and by how many results are missing,
/// up to a hundred; and from the second page on by where the last page ended.
pub proof fn law_page_asked(
    query: Seq<char>,
    limit: int,
    replies: Seq<Result<JsonModel, Seq<char>>>,
    from: int,
)
    requires
        0 <= from <= replies.len(),
    ensures
        search_run(query, limit, replies, from, Seq::empty(), None) matches SearchModel::Ask(vars)
            ==> {
            let missing = limit - pages(replies, from, replies.len() as int).len();
            &&& missing > 0
            &&& vars.len() == if from < replies.len() {
                3int
            } else {
                2int
            }
            &&& vars[0] == (VariableModel { key: "searchQuery"@, value: GqlModel::Str(query) })
            &&& vars[1].key == "first"@
            &&& vars[1].value matches GqlModel::Int(first) && first <= missing && first <= 100 && (
            first == missing || first == 100)
            &&& from < replies.len() ==> vars[2].key == "after"@ && (
            vars[2].value matches GqlModel::Str(end) && end.len() > 0 && JsonModel::Text(end)
                == replies.last()->Ok_0.at("data"@).at("search"@).at("pageInfo"@).at("endCursor"@))
        },
{
    law_search_asks(query, limit, replies, from, Seq::empty(), None);
    if from < replies.len() && search_run(query, limit, replies, from, Seq::empty(), None) is Ask {
        lemma_last_page(query, limit, replies, from, Seq::empty(), None);
        law_next_page(replies.last()->Ok_0, next_cursor(replies.last()->Ok_0)->0);
    }
}

/// A search that asks for another page was told of it by the last page.
pub proof fn lemma_last_page(
    query: Seq<char>,
    limit: int,
    replies: Seq<Result<JsonModel, Seq<char>>>,
    from: int,
    nodes: Seq<JsonModel>,
    cursor: Option<Seq<char>>,
)
    requires
        0 <= from < replies.len(),
        search_run(query, limit, replies, from, nodes, cursor) is Ask,
    ensures
        replies.last() is Ok,
        next_cursor(replies.last()->Ok_0) is Some,
    decreases replies.len() - from,
{
    let data = replies[from]->Ok_0;
    let end = next_cursor(data);
    if from + 1 < replies.len() {
        lemma_last_page(query, limit, replies, from + 1, nodes + page_nodes(data), end);
    }
}

/// What a search makes of the first replies alone: the same where it was over by
/// then, and otherwise another page to ask for.
pub proof fn lemma_search_prefix(
    query: Seq<char>,
    limit: int,
    replies: Seq<Result<JsonModel, Seq<char>>>,
    n: int,
    from: int,
    nodes: Seq<JsonModel>,
    cursor: Option<Seq<char>>,
)
    requires
        0 <= from <= n <= replies.len(),
    ensures
        search_run(query, limit, replies, from, nodes, cursor) matches SearchModel::Done {
            nodes: all,
            used,
        } ==> if used <= n {
            search_run(query, limit, replies.take(n), from, nodes, cursor) == search_run(
                query,
                limit,
                replies,
                from,
                nodes,
                cursor,
            )
        } else {
            search_run(query, limit, replies.take(n), from, nodes, cursor) is Ask
        },
        search_run(query, limit, replies, from, nodes, cursor) is Ask ==> search_run(
            query,
            limit,
            replies.take(n),
            from,
            nodes,
            cursor,
        ) is Ask,
    decreases n - from,
{
    if nodes.len() < limit && from < replies.len() {
        if let Ok(data) = replies[from] {
            let more = nodes + page_nodes(data);
            if let Some(end) = next_cursor(data) {
                if from < n {
                    lemma_search_prefix(query, limit, replies, n, from + 1, more, Some(end));
                } else {
                    law_search_done(query, limit, replies, from + 1, more, Some(end));
                }
            }
            if from < n {
                assert(replies.take(n)[from] == replies[from]);
            }
        }
    }
}

/// What one more reply makes of a search that goes on: a failure where it could not
/// be had, and never one where it could.
pub proof fn lemma_search_pushed(
    query: Seq<char>,
    limit: int,
    replies: Seq<Result<JsonModel, Seq<char>>>,
    reply: Result<JsonModel, Seq<char>>,
    from: int,
    nodes: Seq<JsonModel>,
    cursor: Option<Seq<char>>,
)
    requires
        0 <= from <= replies.len(),
    ensures
        search_run(query, limit, replies, from, nodes, cursor) is Ask ==> match reply {
            Err(reason) => search_run(query, limit, replies.push(reply), from, nodes, cursor)
                == SearchModel::Failed(reason),
            Ok(_) => !(search_run(query, limit, replies.push(reply), from, nodes, cursor) is Failed),
        },
        search_run(query, limit, replies, from, nodes, cursor) is Done ==> search_run(
            query,
            limit,
            replies.push(reply),
            from,
            nodes,
            cursor,
        ) == search_run(query, limit, replies, from, nodes, cursor),
    decreases replies.len() - from,
{
    let all = replies.push(reply);
    if nodes.len() < limit {
        if from < replies.len() {
            assert(all[from] == replies[from]);
            if let Ok(data) = replies[from] {
                if let Some(end) = next_cursor(data) {
                    lemma_search_pushed(
                        query,
                        limit,
                        replies,
                        reply,
                        from + 1,
                        nodes + page_nodes(data),
                        Some(end),
                    );
                }
            }
        } else {
            assert(all[from] == reply);
            if let Ok(data) = reply {
                if let Some(end) = next_cursor(data) {
                    let more = nodes + page_nodes(data);
                    assert(!(search_run(query, limit, all, from + 1, more, Some(end)) is Failed));
                }
            }
        }
    }
}

/// The results of a search that the last reply completed are those of all the
/// replies: each item that is not null in the array of nodes of one of them, and
/// nothing else.
pub proof fn law_search_results(
    query: Seq<char>,
    limit: int,
    replies: Seq<Result<JsonModel, Seq<char>>>,
    from: int,
)
    requires
        0 <= from < replies.len(),
        search_run(query, limit, replies, from, Seq::empty(), None) is Done,
        search_run(query, limit, replies.drop_last(), from, Seq::empty(), None) is Ask,
    ensures
        search_run(query, limit, replies, from, Seq::empty(), None) matches SearchModel::Done {
            nodes,
            used,
        } && used == replies.len() && forall|n: JsonModel| #[trigger]
            nodes.contains(n) <==> !(n is Null) && exists|i: int|
                from <= i < replies.len() && on_page(#[trigger] replies[i], n),
{
    let n = replies.len() - 1;
    assert(replies.take(n) =~= replies.drop_last());
    lemma_search_prefix(query, limit, replies, n, from, Seq::empty(), None);
    law_search_done(query, limit, replies, from, Seq::empty(), None);
    if let SearchModel::Done { nodes, used } = search_run(
        query,
        limit,
        replies,
        from,
        Seq::empty(),
        None,
    ) {
        assert(nodes =~= pages(replies, from, used));
        assert forall|n: JsonModel| #[trigger] nodes.contains(n) <==> !(n is Null) && exists|i: int|
            from <= i < replies.len() && on_page(#[trigger] replies[i], n) by {
            lemma_on_pages(replies, from, used, n);
        }
    }
}

/// The results on pages are the items of their arrays of nodes that are not null.
pub proof fn lemma_on_pages(
    replies: Seq<Result<JsonModel, Seq<char>>>,
    from: int,
    to: int,
    n: JsonModel,
)
    requires
        0 <= from <= to <= replies.len(),
        forall|i: int| from <= i < to ==> (#[trigger] replies[i]) is Ok,
    ensures
        pages(replies, from, to).contains(n) <==> !(n is Null) && exists|i: int|
            from <= i < to && on_page(#[trigger] replies[i], n),
    decreases to - from,
{
    if from < to {
        let data = replies[from]->Ok_0;
        let first = page_nodes(data);
        let rest = pages(replies, from + 1, to);
        let all = pages(replies, from, to);
        assert(all == first + rest);
        law_page_results(data);
        lemma_on_pages(replies, from + 1, to, n);
        assert(replies[from] == Ok::<JsonModel, Seq<char>>(data));
        assert(first.contains(n) <==> !(n is Null) && on_page(replies[from], n)) by {
            if first.contains(n) {
                let k = choose|k: int| 0 <= k < first.len() && first[k] == n;
            }
        }
        if all.contains(n) {
            let k = choose|k: int| 0 <= k < all.len() && all[k] == n;
            if k < first.len() {
                assert(first[k] == n);
                assert(on_page(replies[from], n));
            } else {
                assert(rest[k - first.len()] == n);
                let i = choose|i: int| from + 1 <= i < to && on_page(#[trigger] replies[i], n);
                assert(on_page(replies[i], n));
            }
        }
        if !(n is Null) && exists|i: int| from <= i < to && on_page(#[trigger] replies[i], n) {
            let i = choose|i: int| from <= i < to && on_page(#[trigger] replies[i], n);
            if i == from {
                let k = choose|k: int| 0 <= k < first.len() && first[k] == n;
                assert(all[k] == n);
            } else {
                assert(on_page(replies[i], n));
                let k = choose|k: int| 0 <= k < rest.len() && rest[k] == n;
                assert(all[first.len() + k] == n);
            }
        }
    }
}

} // verus!
