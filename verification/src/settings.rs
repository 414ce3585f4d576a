//! The settings window: who can be given a color, and what its edits do.
use vstd::prelude::*;

use crate::config::Rgb;
use crate::json::text_in;
use crate::lists::{goes_up, lemma_filter_places};
use crate::model::{pr_models, PullRequestModel, PullRequestSummary, ReviewSummary};
use crate::text::{
    has_char, is_space, law_trimmed, law_trimmed_start, occurs, push_new, same, stands_at, texts,
    trim, trim_start, trimmed, trimmed_start, with_text,
};
use crate::textmap::{in_order, lists, TextMap, TextSet};
use crate::view::{state_color, state_tone};

verus! {

/// Whether a PR names a user: as author, by a review that counts, or by asking
/// them for one. Teams (e.g. `@org/platform`) are no users.
pub open spec fn is_named(pr: PullRequestModel, user: Seq<char>) -> bool {
    ||| pr.author.len() > 0 && user == pr.author
    ||| pr.my_latest_review is Some && user == pr.my_latest_review->0.author
    ||| exists|i: int|
        0 <= i < pr.other_latest_reviews.len() && (#[trigger] pr.other_latest_reviews[i]).author
            == user
    ||| exists|i: int|
        0 <= i < pr.requested_reviewers.len() && asks_for(#[trigger] pr.requested_reviewers[i], user)
}

/// Whether a request for a review asks this user.
pub open spec fn asks_for(requested: Seq<char>, user: Seq<char>) -> bool {
    let name = trimmed_start(requested, '@');
    name.len() > 0 && !name.contains('/') && user == name
}

/// The users that some PR names.
pub open spec fn named_users(prs: Seq<PullRequestModel>) -> Set<Seq<char>> {
    Set::new(|u: Seq<char>| exists|i: int| 0 <= i < prs.len() && is_named(#[trigger] prs[i], u))
}

/// The users that can be given a color: the viewer, those that the current data
/// names, and those that have one.
pub open spec fn users_known(
    login: Seq<char>,
    prs: Seq<PullRequestModel>,
    colors: Map<Seq<char>, Seq<u8>>,
) -> Set<Seq<char>> {
    Set::new(
        |u: Seq<char>|
            (login.len() > 0 && u == login) || named_users(prs).contains(u) || colors.contains_key(u),
    )
}

fn add_named(set: &mut TextSet, pr: &PullRequestSummary)
    ensures
        final(set)@ == old(set)@.union(Set::new(|u: Seq<char>| is_named(pr@, u))),
{
    let ghost start = set@;
    if !pr.author.as_str().is_empty() {
        set.insert(pr.author.clone());
    }
    if let Some(review) = &pr.my_latest_review {
        set.insert(review.author.clone());
    }
    let ghost first = set@;
    let ghost others = pr@.other_latest_reviews;
    for i in 0..pr.other_latest_reviews.len()
        invariant
            others == pr@.other_latest_reviews,
            forall|u: Seq<char>| #[trigger]
                set@.contains(u) <==> first.contains(u) || exists|j: int|
                    0 <= j < i && (#[trigger] others[j]).author == u,
    {
        let ghost was = set@;
        assert(others[i as int] == pr.other_latest_reviews@[i as int]@);
        set.insert(pr.other_latest_reviews[i].author.clone());
        proof {
            assert forall|u: Seq<char>| #[trigger] set@.contains(u) <==> first.contains(u)
                || exists|j: int| 0 <= j < i + 1 && (#[trigger] others[j]).author == u by {
                assert(was.contains(u) <==> first.contains(u) || exists|j: int|
                    0 <= j < i && (#[trigger] others[j]).author == u);
                if u == others[i as int].author {
                    assert(set@.contains(u));
                }
            }
        }
    }
    let ghost second = set@;
    let ghost asked = pr@.requested_reviewers;
    for i in 0..pr.requested_reviewers.len()
        invariant
            asked == pr@.requested_reviewers,
            forall|u: Seq<char>| #[trigger]
                set@.contains(u) <==> second.contains(u) || exists|j: int|
                    0 <= j < i && asks_for(#[trigger] asked[j], u),
    {
        let ghost was = set@;
        assert(asked[i as int] == pr.requested_reviewers@[i as int]@);
        let name = trim_start(pr.requested_reviewers[i].as_str(), '@');
        let ghost text = name@;
        if !name.as_str().is_empty() && !has_char(name.as_str(), '/') {
            set.insert(name);
        }
        proof {
            assert forall|u: Seq<char>| #[trigger] set@.contains(u) <==> second.contains(u)
                || exists|j: int| 0 <= j < i + 1 && asks_for(#[trigger] asked[j], u) by {
                assert(was.contains(u) <==> second.contains(u) || exists|j: int|
                    0 <= j < i && asks_for(#[trigger] asked[j], u));
                if asks_for(asked[i as int], u) {
                    assert(set@.contains(u));
                }
            }
        }
    }
    assert(set@ =~= start.union(Set::new(|u: Seq<char>| is_named(pr@, u))));
}

/// Logins seen in the current data, plus any already-colored ones, in order.
pub fn known_users(login: &str, prs: &Vec<PullRequestSummary>, colors: &TextMap<Rgb>) -> (r: Vec<
    String,
>)
    ensures
        texts(r@) == in_order(users_known(login@, pr_models(prs@), colors@)),
        lists(texts(r@), users_known(login@, pr_models(prs@), colors@)),
{
    let ghost all = pr_models(prs@);
    let mut set = TextSet::new();
    if !login.is_empty() {
        set.insert(login.to_owned());
    }
    let ghost first = set@;
    for i in 0..prs.len()
        invariant
            all == pr_models(prs@),
            set@ == first.union(named_users(all.take(i as int))),
    {
        let ghost was = set@;
        add_named(&mut set, &prs[i]);
        proof {
            let less = all.take(i as int);
            let now = all.take(i + 1);
            assert(now[i as int] == prs@[i as int]@);
            assert forall|u: Seq<char>| named_users(now).contains(u) <==> #[trigger] named_users(
                less,
            ).contains(u) || is_named(prs@[i as int]@, u) by {
                if named_users(now).contains(u) {
                    let j = choose|j: int| 0 <= j < now.len() && is_named(#[trigger] now[j], u);
                    if j < i {
                        assert(is_named(less[j], u));
                    }
                }
                if named_users(less).contains(u) {
                    let j = choose|j: int| 0 <= j < less.len() && is_named(#[trigger] less[j], u);
                    assert(is_named(now[j], u));
                }
                if is_named(prs@[i as int]@, u) {
                    assert(is_named(now[i as int], u));
                }
            }
            assert forall|u: Seq<char>| #[trigger] set@.contains(u) <==> first.union(
                named_users(now),
            ).contains(u) by {
                assert(named_users(less).contains(u) || !named_users(less).contains(u));
            }
            assert(set@ =~= first.union(named_users(now)));
        }
    }
    assert(all.take(all.len() as int) =~= all);
    let ghost second = set@;
    let n: usize = colors.len();
    let ghost keys = colors.keys();
    for i in 0..n
        invariant
            n == colors.keys().len(),
            keys == colors.keys(),
            forall|u: Seq<char>| #[trigger]
                set@.contains(u) <==> second.contains(u) || keys.take(i as int).contains(u),
    {
        let ghost was = set@;
        set.insert(colors.key_at(i).clone());
        proof {
            let less = keys.take(i as int);
            let now = keys.take(i + 1);
            assert forall|u: Seq<char>| #[trigger] set@.contains(u) <==> second.contains(u)
                || now.contains(u) by {
                assert(was.contains(u) <==> second.contains(u) || less.contains(u));
                if less.contains(u) {
                    let j = choose|j: int| 0 <= j < less.len() && less[j] == u;
                    assert(now[j] == u);
                }
                if now.contains(u) {
                    let j = choose|j: int| 0 <= j < now.len() && now[j] == u;
                    if j < i {
                        assert(less[j] == u);
                    }
                }
                if u == keys[i as int] {
                    assert(now[i as int] == u);
                }
            }
        }
    }
    proof {
        assert(keys.take(n as int) =~= keys);
        assert forall|u: Seq<char>| #[trigger] set@.contains(u) <==> users_known(
            login@,
            all,
            colors@,
        ).contains(u) by {
            assert(keys.contains(u) <==> colors@.dom().contains(u));
        }
        assert(set@ =~= users_known(login@, all, colors@));
    }
    set.to_list()
}

/// The color that a user has, where one is set.
pub fn user_color(colors: &TextMap<Rgb>, user: &str) -> (r: Option<[u8; 3]>)
    ensures
        match r {
            Some(rgb) => colors@.contains_key(user@) && colors@[user@] == rgb@,
            None => !colors@.contains_key(user@),
        },
{
    match colors.get(user) {
        Some(color) => Some(color.rgb),
        None => None,
    }
}

/// The color that the picker of a user starts with.
pub open spec fn picked(colors: Map<Seq<char>, Seq<u8>>, user: Seq<char>) -> Seq<u8> {
    if colors.contains_key(user) {
        colors[user]
    } else {
        seq![220u8, 220u8, 220u8]
    }
}

/// What is entered in a field: nothing where it is blank.
pub open spec fn entry_in(input: Seq<char>) -> Option<Seq<char>> {
    if trimmed(input).len() == 0 {
        None
    } else {
        Some(trimmed(input))
    }
}

/// The account that is entered in a field.
pub open spec fn account_in(input: Seq<char>) -> Option<Seq<char>> {
    let name = trimmed_start(trimmed(input), '@');
    if name.len() == 0 {
        None
    } else {
        Some(name)
    }
}

/// The color that the picker of a user starts with, and whether the user has it:
/// a light gray where no color is set.
pub fn picker_color(colors: &TextMap<Rgb>, user: &str) -> (r: ([u8; 3], bool))
    ensures
        r.1 == colors@.contains_key(user@),
        r.0@ == (if colors@.contains_key(user@) {
            colors@[user@]
        } else {
            seq![220u8, 220u8, 220u8]
        }),
        r.0@ == picked(colors@, user@),
{
    match user_color(colors, user) {
        Some(rgb) => (rgb, true),
        None => {
            let gray: [u8; 3] = [220, 220, 220];
            assert(gray@ =~= seq![220u8, 220u8, 220u8]);
            (gray, false)
        },
    }
}

/// The color of a review in the column of others' reviews: that of its state, else
/// that of its author, else none.
pub open spec fn review_tone(
    state_tone: Option<(u8, u8, u8)>,
    colors: Map<Seq<char>, Seq<u8>>,
    author: Seq<char>,
) -> Option<(u8, u8, u8)> {
    match state_tone {
        Some(tone) => Some(tone),
        None => if colors.contains_key(author) {
            Some((colors[author][0], colors[author][1], colors[author][2]))
        } else {
            None
        },
    }
}

/// The color of a review in the column of others' reviews: an approval in green,
/// otherwise the user's color.
pub fn review_color(colors: &TextMap<Rgb>, review: &ReviewSummary, dark: bool) -> (r: Option<
    (u8, u8, u8),
>)
    ensures
        r == review_tone(state_tone(review@.state, dark), colors@, review@.author),
{
    match state_color(review.state.as_str(), dark) {
        Some(tone) => Some(tone),
        None => match user_color(colors, review.author.as_str()) {
            Some(rgb) => Some((rgb[0], rgb[1], rgb[2])),
            None => None,
        },
    }
}

/// An edit of a color: a new one, or none to take it away.
pub struct ColorEdit {
    pub user: String,
    pub color: Option<[u8; 3]>,
}

/// What an edit of a color is.
#[verifier::ext_equal]
pub struct EditModel {
    pub user: Seq<char>,
    pub color: Option<Seq<u8>>,
}

impl View for ColorEdit {
    type V = EditModel;

    open spec fn view(&self) -> EditModel {
        EditModel {
            user: self.user@,
            color: match self.color {
                Some(rgb) => Some(rgb@),
                None => None,
            },
        }
    }
}

/// The edits of a list.
pub open spec fn edit_models(edits: Seq<ColorEdit>) -> Seq<EditModel> {
    edits.map_values(|e: ColorEdit| e@)
}

/// The colors after edits, one after the other.
pub open spec fn edited(
    colors: Map<Seq<char>, Seq<u8>>,
    edits: Seq<EditModel>,
) -> Map<Seq<char>, Seq<u8>>
    decreases edits.len(),
{
    if edits.len() == 0 {
        colors
    } else {
        let rest = edited(colors, edits.drop_last());
        match edits.last().color {
            Some(rgb) => rest.insert(edits.last().user, rgb),
            None => rest.remove(edits.last().user),
        }
    }
}

/// The colors with a user added, white where the user has no color yet.
pub open spec fn with_user(
    colors: Map<Seq<char>, Seq<u8>>,
    user: Option<Seq<char>>,
) -> Map<Seq<char>, Seq<u8>> {
    match user {
        Some(user) => if colors.contains_key(user) {
            colors
        } else {
            colors.insert(user, seq![255u8, 255u8, 255u8])
        },
        None => colors,
    }
}

/// Applies the edits of the settings window to the colors, and says whether they
/// have to be saved.
pub fn edit_colors(
    colors: &mut TextMap<Rgb>,
    edits: &Vec<ColorEdit>,
    add_user: &Option<String>,
) -> (changed: bool)
    ensures
        final(colors)@ == with_user(edited(old(colors)@, edit_models(edits@)), text_in(*add_user)),
        changed == (edits@.len() > 0 || *add_user is Some),
{
    let ghost start = colors@;
    let ghost all = edit_models(edits@);
    for i in 0..edits.len()
        invariant
            all == edit_models(edits@),
            colors@ == edited(start, all.take(i as int)),
    {
        proof {
            assert(all.take(i + 1).drop_last() =~= all.take(i as int));
            assert(all.take(i + 1).last() == edits@[i as int]@);
        }
        match edits[i].color {
            Some(rgb) => colors.insert(edits[i].user.clone(), Rgb { rgb }),
            None => {
                let _ = colors.remove(edits[i].user.as_str());
            },
        }
    }
    assert(all.take(all.len() as int) =~= all);
    match add_user {
        Some(user) => {
            if colors.get(user.as_str()).is_none() {
                let white = Rgb { rgb: [255, 255, 255] };
                assert(white@ =~= seq![255u8, 255u8, 255u8]);
                colors.insert(user.clone(), white);
            }
            true
        },
        None => edits.len() > 0,
    }
}

/// The user or link in an input field, where it holds more than white space.
pub fn entered(input: &str) -> (r: Option<String>)
    ensures
        text_in(r) == (if trimmed(input@).len() == 0 {
            None
        } else {
            Some(trimmed(input@))
        }),
        text_in(r) == entry_in(input@),
{
    let text = trim(input);
    if text.as_str().is_empty() {
        None
    } else {
        Some(text)
    }
}

/// The account in an input field, without its `@`, where there is one.
pub fn entered_account(input: &str) -> (r: Option<String>)
    ensures
        text_in(r) == (if trimmed_start(trimmed(input@), '@').len() == 0 {
            None
        } else {
            Some(trimmed_start(trimmed(input@), '@'))
        }),
        text_in(r) == account_in(input@),
{
    let text = trim_start(trim(input).as_str(), '@');
    if text.as_str().is_empty() {
        None
    } else {
        Some(text)
    }
}

/// Which texts are not `t`.
pub open spec fn differs_from(t: Seq<char>) -> spec_fn(Seq<char>) -> bool {
    |x: Seq<char>| x != t
}

/// A list without a text.
pub open spec fn without_text(list: Seq<Seq<char>>, t: Seq<char>) -> Seq<Seq<char>> {
    list.filter(differs_from(t))
}

/// A list after an entry was added, unless it was there, and another taken away.
pub open spec fn list_edited(
    list: Seq<Seq<char>>,
    add: Option<Seq<char>>,
    remove: Option<Seq<char>>,
) -> Seq<Seq<char>> {
    let more = match add {
        Some(t) => with_text(list, t),
        None => list,
    };
    match remove {
        Some(t) => without_text(more, t),
        None => more,
    }
}

fn drop_text(list: &Vec<String>, t: &str) -> (r: Vec<String>)
    ensures
        texts(r@) == without_text(texts(list@), t@),
{
    let ghost all = texts(list@);
    let ghost keep = differs_from(t@);
    let mut out: Vec<String> = Vec::new();
    reveal(Seq::filter);
    assert(texts(out@) =~= all.take(0).filter(keep));
    for i in 0..list.len()
        invariant
            all == texts(list@),
            keep == differs_from(t@),
            texts(out@) == all.take(i as int).filter(keep),
    {
        reveal(Seq::filter);
        let ghost earlier = texts(out@);
        proof {
            assert(all.take(i + 1).drop_last() =~= all.take(i as int));
            assert(all.take(i + 1).last() == list@[i as int]@);
        }
        if !same(list[i].as_str(), t) {
            out.push(list[i].clone());
            assert(texts(out@) =~= earlier.push(list@[i as int]@));
        }
    }
    assert(all.take(all.len() as int) =~= all);
    out
}

/// Applies the edits of the settings window to a list of links or accounts, and
/// says whether it has to be saved.
pub fn edit_list(list: &mut Vec<String>, add: &Option<String>, remove: &Option<String>) -> (changed:
    bool)
    ensures
        texts(final(list)@) == list_edited(texts(old(list)@), text_in(*add), text_in(*remove)),
        changed == (*add is Some || *remove is Some),
{
    if let Some(t) = add {
        push_new(list, t.clone());
    }
    if let Some(t) = remove {
        let less = drop_text(list, t.as_str());
        *list = less;
    }
    add.is_some() || remove.is_some()
}

/// An added entry is in the list, once however often it is added; a removed one is
/// not; and all other entries stay.
pub proof fn law_list_edits(list: Seq<Seq<char>>, t: Seq<char>, other: Seq<char>)
    requires
        other != t,
    ensures
        list_edited(list, Some(t), None).contains(t),
        list_edited(list_edited(list, Some(t), None), Some(t), None) == list_edited(
            list,
            Some(t),
            None,
        ),
        !list_edited(list, None, Some(t)).contains(t),
        list_edited(list, Some(t), None).contains(other) <==> list.contains(other),
        list_edited(list, None, Some(t)).contains(other) <==> list.contains(other),
        !list.contains(t) ==> list_edited(list_edited(list, Some(t), None), None, Some(t)) == list,
{
    let more = with_text(list, t);
    lemma_without(list, t, t);
    lemma_without(list, t, other);
    if !list.contains(t) {
        assert(more[list.len() as int] == t);
        if list.contains(other) {
            let i = choose|i: int| 0 <= i < list.len() && list[i] == other;
            assert(more[i] == other);
        }
        if more.contains(other) {
            let i = choose|i: int| 0 <= i < more.len() && more[i] == other;
            assert(list[i] == other);
        }
        reveal(Seq::filter);
        assert(more.drop_last() =~= list);
        lemma_nothing_dropped(list, t);
    }
}

proof fn lemma_without(list: Seq<Seq<char>>, t: Seq<char>, x: Seq<char>)
    ensures
        without_text(list, t).contains(x) <==> list.contains(x) && x != t,
{
    crate::lists::lemma_filter_members(list, differs_from(t));
    assert(without_text(list, t).contains(x) <==> list.contains(x) && differs_from(t)(x));
}

proof fn lemma_nothing_dropped(list: Seq<Seq<char>>, t: Seq<char>)
    requires
        !list.contains(t),
    ensures
        without_text(list, t) == list,
    decreases list.len(),
{
    reveal(Seq::filter);
    if list.len() > 0 {
        let rest = list.drop_last();
        assert(!rest.contains(t)) by {
            if rest.contains(t) {
                let i = choose|i: int| 0 <= i < rest.len() && rest[i] == t;
                assert(list[i] == t);
            }
        }
        lemma_nothing_dropped(rest, t);
        assert(list[list.len() - 1] != t);
        assert(rest.push(list.last()) =~= list);
    } else {
        assert(without_text(list, t) =~= list);
    }
}

/// Giving a user a color and taking it away again leaves the colors of all others
/// as they were, and the user without one.
pub proof fn law_color_edits(
    colors: Map<Seq<char>, Seq<u8>>,
    user: Seq<char>,
    rgb: Seq<u8>,
    other: Seq<char>,
)
    requires
        other != user,
    ensures
        edited(colors, seq![EditModel { user, color: Some(rgb) }]) == colors.insert(user, rgb),
        edited(
            colors,
            seq![EditModel { user, color: Some(rgb) }, EditModel { user, color: None }],
        ) == colors.remove(user),
        with_user(colors, Some(user)).contains_key(user),
        with_user(colors, Some(user)).contains_key(other) <==> colors.contains_key(other),
        colors.contains_key(user) ==> with_user(colors, Some(user)) == colors,
{
    reveal_with_fuel(edited, 3);
    let one = seq![EditModel { user, color: Some(rgb) }];
    let two = seq![EditModel { user, color: Some(rgb) }, EditModel { user, color: None }];
    assert(two.drop_last() =~= one);
    assert(one.drop_last() =~= Seq::empty());
    assert(edited(colors, two) =~= colors.remove(user));
}

/// Whom a pull request names: its author, those who reviewed it, and the users, but
/// not the teams, of whom a review is asked.
pub proof fn law_named(pr: PullRequestModel, user: Seq<char>)
    ensures
        user.len() > 0 && user == pr.author ==> is_named(pr, user),
        pr.my_latest_review matches Some(r) ==> is_named(pr, r.author),
        forall|i: int|
            0 <= i < pr.other_latest_reviews.len() ==> is_named(
                pr,
                (#[trigger] pr.other_latest_reviews[i]).author,
            ),
        user.len() > 0 && user[0] != '@' && !user.contains('/') && pr.requested_reviewers.contains(
            seq!['@'] + user,
        ) ==> is_named(pr, user),
        is_named(pr, user) ==> {
            ||| user == pr.author
            ||| pr.my_latest_review matches Some(r) && r.author == user
            ||| exists|i: int|
                0 <= i < pr.other_latest_reviews.len() && (
                #[trigger] pr.other_latest_reviews[i]).author == user
            ||| exists|i: int|
                0 <= i < pr.requested_reviewers.len() && user.is_suffix_of(
                    #[trigger] pr.requested_reviewers[i],
                ) && user.len() > 0 && !user.contains('/')
        },
{
    let label = seq!['@'] + user;
    if user.len() > 0 && user[0] != '@' && !user.contains('/') && pr.requested_reviewers.contains(
        label,
    ) {
        let i = choose|i: int| 0 <= i < pr.requested_reviewers.len() && pr.requested_reviewers[i]
            == label;
        assert(label.skip(1) =~= user);
        reveal_with_fuel(trimmed_start, 2);
        assert(trimmed_start(label, '@') == user);
        assert(asks_for(pr.requested_reviewers[i], user));
    }
    if exists|i: int|
        0 <= i < pr.requested_reviewers.len() && asks_for(#[trigger] pr.requested_reviewers[i], user) {
        let i = choose|i: int|
            0 <= i < pr.requested_reviewers.len() && asks_for(
                #[trigger] pr.requested_reviewers[i],
                user,
            );
        crate::text::law_trimmed_start(pr.requested_reviewers[i], '@');
        assert(user.is_suffix_of(pr.requested_reviewers[i]));
    }
}

/// Known are the user, everyone whom a listed pull request names, and everyone who
/// has a color; nobody else is.
pub proof fn law_known(
    login: Seq<char>,
    prs: Seq<PullRequestModel>,
    colors: Map<Seq<char>, Seq<u8>>,
    user: Seq<char>,
)
    ensures
        users_known(login, prs, colors).contains(user) <==> {
            ||| user == login && login.len() > 0
            ||| colors.contains_key(user)
            ||| exists|i: int| 0 <= i < prs.len() && is_named(#[trigger] prs[i], user)
        },
{
}

/// The color of a review is that of its state where that has one, whatever colors are
/// set; otherwise the color that is set for its author, if any.
pub proof fn law_review_tone(
    state: Seq<char>,
    dark: bool,
    colors: Map<Seq<char>, Seq<u8>>,
    others: Map<Seq<char>, Seq<u8>>,
    author: Seq<char>,
)
    ensures
        state == "APPROVED"@ ==> review_tone(state_tone(state, dark), colors, author)
            == review_tone(state_tone(state, dark), others, author) && review_tone(
            state_tone(state, dark),
            colors,
            author,
        ) is Some,
        state != "APPROVED"@ ==> match review_tone(state_tone(state, dark), colors, author) {
            Some(tone) => colors.contains_key(author) && tone.0 == colors[author][0] && tone.1
                == colors[author][1] && tone.2 == colors[author][2],
            None => !colors.contains_key(author),
        },
{
    crate::view::law_state_tone(state, dark);
}

/// The last edit of a user's color counts; users without an edit keep theirs.
pub proof fn law_last_edit_counts(
    colors: Map<Seq<char>, Seq<u8>>,
    edits: Seq<EditModel>,
    user: Seq<char>,
)
    ensures
        ({
            let now = edited(colors, edits);
            &&& (forall|i: int| 0 <= i < edits.len() ==> (#[trigger] edits[i]).user != user) ==> (
            now.contains_key(user) <==> colors.contains_key(user)) && (colors.contains_key(user)
                ==> now[user] == colors[user])
            &&& forall|i: int|
                0 <= i < edits.len() && (#[trigger] edits[i]).user == user && (forall|j: int|
                    i < j < edits.len() ==> (#[trigger] edits[j]).user != user)
                    ==> match edits[i].color {
                    Some(rgb) => now.contains_key(user) && now[user] == rgb,
                    None => !now.contains_key(user),
                }
        }),
    decreases edits.len(),
{
    if edits.len() > 0 {
        let less = edits.drop_last();
        law_last_edit_counts(colors, less, user);
        let now = edited(colors, edits);
        assert forall|i: int|
            0 <= i < edits.len() && (#[trigger] edits[i]).user == user && (forall|j: int|
                i < j < edits.len() ==> (#[trigger] edits[j]).user != user) implies match edits[i].color {
            Some(rgb) => now.contains_key(user) && now[user] == rgb,
            None => !now.contains_key(user),
        } by {
            if i < less.len() {
                assert(less[i].user == user);
                assert(edits[edits.len() - 1].user != user);
                assert forall|j: int| i < j < less.len() implies (#[trigger] less[j]).user
                    != user by {
                    assert(edits[j].user != user);
                }
            }
        }
        if forall|i: int| 0 <= i < edits.len() ==> (#[trigger] edits[i]).user != user {
            assert(edits[edits.len() - 1].user != user);
            assert forall|i: int| 0 <= i < less.len() implies (#[trigger] less[i]).user != user by {
                assert(edits[i].user != user);
            }
        }
    }
}

/// What is added to a list stands at its end, and what is removed leaves the rest in
/// order.
pub proof fn law_list_order_kept(list: Seq<Seq<char>>, t: Seq<char>)
    ensures
        !list.contains(t) ==> list_edited(list, Some(t), None) == list.push(t),
        list.contains(t) ==> list_edited(list, Some(t), None) == list,
        list_edited(list, None, None) == list,
        exists|places: Seq<int>|
            {
                &&& #[trigger] goes_up(places)
                &&& forall|k: int| #[trigger]
                    places.contains(k) <==> 0 <= k < list.len() && list[k] != t
                &&& list_edited(list, None, Some(t)).len() == places.len()
                &&& forall|i: int|
                    0 <= i < places.len() ==> #[trigger] list_edited(list, None, Some(t))[i]
                        == list[places[i]]
            },
{
    let keep = differs_from(t);
    let places = lemma_filter_places(list, keep);
    assert forall|k: int| #[trigger] places.contains(k) <==> 0 <= k < list.len() && list[k] != t by {
        assert(keep(list[k]) == (list[k] != t));
    }
    assert(goes_up(places));
}

/// What is entered counts without the white space around it, and an account without
/// its `@` too; a field that holds nothing else has no entry. Entering what was made of
/// an entry gives the same.
pub proof fn law_entered(input: Seq<char>)
    ensures
        entry_in(input) matches Some(t) ==> t.len() > 0 && occurs(t, input) && !is_space(t[0])
            && !is_space(t.last()),
        entry_in(input) is None <==> forall|i: int|
            0 <= i < input.len() ==> is_space(#[trigger] input[i]),
        account_in(input) matches Some(t) ==> t.len() > 0 && t[0] != '@' && (entry_in(
            input,
        ) matches Some(all) && t.is_suffix_of(all) && forall|i: int|
            0 <= i < all.len() - t.len() ==> #[trigger] all[i] == '@'),
        account_in(input) is None ==> (entry_in(input) matches Some(all) ==> forall|i: int|
            0 <= i < all.len() ==> #[trigger] all[i] == '@'),
{
    law_trimmed(input);
    let t = trimmed(input);
    let (from, to) = choose|from: int, to: int|
        {
            &&& 0 <= from <= to <= input.len()
            &&& t == #[trigger] input.subrange(from, to)
            &&& forall|i: int| 0 <= i < from ==> is_space(#[trigger] input[i])
            &&& forall|i: int| to <= i < input.len() ==> is_space(#[trigger] input[i])
        };
    assert(stands_at(t, input, from));
    if t.len() == 0 {
        assert forall|i: int| 0 <= i < input.len() implies is_space(#[trigger] input[i]) by {}
    } else {
        assert(t[0] == input[from]);
    }
    law_trimmed_start(t, '@');
}

/// The picker of a user with a color starts with it; all other users start with the
/// same gray.
pub proof fn law_picker(colors: Map<Seq<char>, Seq<u8>>, user: Seq<char>, other: Seq<char>)
    ensures
        colors.contains_key(user) ==> picked(colors, user) == colors[user],
        !colors.contains_key(user) && !colors.contains_key(other) ==> picked(colors, user)
            == picked(colors, other),
        !colors.contains_key(user) ==> picked(colors, user).len() == 3 && picked(colors, user)[0]
            == picked(colors, user)[1] == picked(colors, user)[2] >= 200,
{
}

} // verus!
