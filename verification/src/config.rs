//! Persistent settings shared between the GUI and CLI: where they are kept, and
//! what their files hold.
use std::collections::BTreeMap;
use vstd::prelude::*;

use crate::json::{
    array_value, orderly, parse_json, parsed, render_json, rendered, text_in, text_value, values, Json,
    JsonModel,
};
use crate::order::before;
use crate::resolve::{below, join_path, law_below};
use crate::text::texts;
use crate::textmap::{in_order, lemma_listable, lists, TextMap};

verus! {

/// The settings directory of a home directory.
pub open spec fn settings_dir(home: Seq<char>) -> Seq<char> {
    below(home, ".config/gh-review-insight"@)
}

/// The path of a file in the settings directory, where there is a home directory.
pub open spec fn settings_file(home: Option<Seq<char>>, name: Seq<char>) -> Option<Seq<char>> {
    match home {
        Some(home) => Some(below(settings_dir(home), name)),
        None => None,
    }
}

/// The settings directory, where there is a home directory.
pub fn config_dir(home: &Option<String>) -> (r: Option<String>)
    ensures
        text_in(r) == (match text_in(*home) {
            Some(home) => Some(settings_dir(home)),
            None => None,
        }),
{
    match home {
        Some(home) => Some(join_path(home.as_str(), ".config/gh-review-insight")),
        None => None,
    }
}

fn config_file(home: &Option<String>, name: &str) -> (r: Option<String>)
    ensures
        text_in(r) == settings_file(text_in(*home), name@),
{
    match config_dir(home) {
        Some(dir) => Some(join_path(dir.as_str(), name)),
        None => None,
    }
}

/// Where the colors of users are kept.
pub open spec fn colors_file(home: Option<Seq<char>>) -> Option<Seq<char>> {
    settings_file(home, "colors.json"@)
}

/// Where the links to hide are kept.
pub open spec fn excludes_file(home: Option<Seq<char>>) -> Option<Seq<char>> {
    settings_file(home, "excludes.json"@)
}

/// Where the accounts to ignore are kept.
pub open spec fn ignored_file(home: Option<Seq<char>>) -> Option<Seq<char>> {
    settings_file(home, "ignored.json"@)
}

/// Where completed AI review sessions are kept.
pub open spec fn sessions_file(home: Option<Seq<char>>) -> Option<Seq<char>> {
    settings_file(home, "ai_sessions.json"@)
}

/// Where launched AI reviews are kept.
pub open spec fn launched_file(home: Option<Seq<char>>) -> Option<Seq<char>> {
    settings_file(home, "ai_launched.json"@)
}

/// Where AI runs work.
pub open spec fn workspace_of(home: Option<Seq<char>>) -> Option<Seq<char>> {
    settings_file(home, "workspace"@)
}

/// Where the browser window of review reports is kept.
pub open spec fn window_file(home: Option<Seq<char>>) -> Option<Seq<char>> {
    settings_file(home, "review_browser_window.json"@)
}

/// Where the colors of users are kept.
pub fn colors_path(home: &Option<String>) -> (r: Option<String>)
    ensures
        text_in(r) == settings_file(text_in(*home), "colors.json"@),
        text_in(r) == colors_file(text_in(*home)),
{
    config_file(home, "colors.json")
}

/// Where the links to hide are kept.
pub fn excludes_path(home: &Option<String>) -> (r: Option<String>)
    ensures
        text_in(r) == settings_file(text_in(*home), "excludes.json"@),
        text_in(r) == excludes_file(text_in(*home)),
{
    config_file(home, "excludes.json")
}

/// Where the accounts to ignore are kept.
pub fn ignored_path(home: &Option<String>) -> (r: Option<String>)
    ensures
        text_in(r) == settings_file(text_in(*home), "ignored.json"@),
        text_in(r) == ignored_file(text_in(*home)),
{
    config_file(home, "ignored.json")
}

/// Completed AI review sessions, keyed by PR URL.
pub fn ai_sessions_path(home: &Option<String>) -> (r: Option<String>)
    ensures
        text_in(r) == settings_file(text_in(*home), "ai_sessions.json"@),
        text_in(r) == sessions_file(text_in(*home)),
{
    config_file(home, "ai_sessions.json")
}

/// Launched (interactive) AI reviews, keyed by PR URL.
pub fn ai_launched_path(home: &Option<String>) -> (r: Option<String>)
    ensures
        text_in(r) == settings_file(text_in(*home), "ai_launched.json"@),
        text_in(r) == launched_file(text_in(*home)),
{
    config_file(home, "ai_launched.json")
}

/// Working directory for AI runs. Review reports are saved under
/// `<dir>/reviews/`, and sessions are resumed from this directory.
pub fn workspace_dir(home: &Option<String>) -> (r: Option<String>)
    ensures
        text_in(r) == settings_file(text_in(*home), "workspace"@),
        text_in(r) == workspace_of(text_in(*home)),
{
    config_file(home, "workspace")
}

/// Identity of the dedicated browser window review reports are opened into
/// (so repeated opens land as tabs in the same window).
pub fn review_browser_window_path(home: &Option<String>) -> (r: Option<String>)
    ensures
        text_in(r) == settings_file(text_in(*home), "review_browser_window.json"@),
        text_in(r) == window_file(text_in(*home)),
{
    config_file(home, "review_browser_window.json")
}

/// The color of one user: red, green and blue.
pub struct UserColor {
    pub user: String,
    pub rgb: [u8; 3],
}

/// What the color of a user is.
#[verifier::ext_equal]
pub struct ColorModel {
    pub user: Seq<char>,
    pub rgb: Seq<u8>,
}

impl View for UserColor {
    type V = ColorModel;

    open spec fn view(&self) -> ColorModel {
        ColorModel { user: self.user@, rgb: self.rgb@ }
    }
}

/// The colors of a list.
pub open spec fn color_models(list: Seq<UserColor>) -> Seq<ColorModel> {
    list.map_values(|c: UserColor| c@)
}

/// Whether the users of `list` stand in order, each once.
pub open spec fn users_increase(list: Seq<ColorModel>) -> bool {
    forall|i: int, j: int|
        0 <= i < j < list.len() ==> before(
            (#[trigger] list[i]).user,
            (#[trigger] list[j]).user,
        )
}

/// The colors that a text holds, in the order of their users; none where the text
/// is no JSON object of colors.
pub uninterp spec fn colors_read(text: Seq<char>) -> Option<Seq<ColorModel>>;

/// The indented JSON text of colors.
pub uninterp spec fn colors_written(list: Seq<ColorModel>) -> Seq<char>;

/// Whether `list` is what `colors_read` says of a text.
pub open spec fn is_colors(list: Option<Vec<UserColor>>, read: Option<Seq<ColorModel>>) -> bool {
    match list {
        Some(list) => read == Some(color_models(list@)) && users_increase(color_models(list@)),
        None => read is None,
    }
}

/// `serde_json::from_str` into a map from names to three bytes: its entries, which
/// such a map walks in the order of their names, or none where the text is not of
/// that form. A function of the text alone.
#[verifier::external_body]
fn read_colors(text: &str) -> (r: Option<Vec<UserColor>>)
    ensures
        is_colors(r, colors_read(text@)),
{
    serde_json::from_str::<BTreeMap<String, [u8; 3]>>(text).ok().map(
        |m| m.into_iter().map(|(user, rgb)| UserColor { user, rgb }).collect(),
    )
}

/// `serde_json::to_string_pretty` of a map from names to three bytes, a function
/// of its entries. Reading the text gives the entries back. Nothing is said here
/// of the layout of the text.
#[verifier::external_body]
fn write_colors(list: &Vec<UserColor>) -> (r: String)
    requires
        users_increase(color_models(list@)),
    ensures
        r@ == colors_written(color_models(list@)),
        colors_read(r@) == Some(color_models(list@)),
{
    let map: BTreeMap<&str, [u8; 3]> = list.iter().map(|c| (c.user.as_str(), c.rgb)).collect();
    serde_json::to_string_pretty(&map).unwrap()
}

/// The colors of `list` by user.
pub open spec fn by_user(list: Seq<ColorModel>) -> Map<Seq<char>, Seq<u8>>
    decreases list.len(),
{
    if list.len() == 0 {
        Map::empty()
    } else {
        by_user(list.drop_last()).insert(list.last().user, list.last().rgb)
    }
}

/// The colors by user in a settings file; none where there is no file or it holds
/// something else.
pub open spec fn colors_in(text: Option<Seq<char>>) -> Map<Seq<char>, Seq<u8>> {
    match text {
        Some(text) => match colors_read(text) {
            Some(list) => by_user(list),
            None => Map::empty(),
        },
        None => Map::empty(),
    }
}

/// The color of a user in the table of colors.
pub struct Rgb {
    pub rgb: [u8; 3],
}

impl View for Rgb {
    type V = Seq<u8>;

    open spec fn view(&self) -> Seq<u8> {
        self.rgb@
    }
}

/// The colors of a list by user.
pub fn colors_by_user(list: &Vec<UserColor>) -> (r: TextMap<Rgb>)
    ensures
        r@ == by_user(color_models(list@)),
{
    let ghost all = color_models(list@);
    let mut out: TextMap<Rgb> = TextMap::new();
    for i in 0..list.len()
        invariant
            all == color_models(list@),
            out@ == by_user(all.take(i as int)),
    {
        proof {
            assert(all.take(i + 1).drop_last() =~= all.take(i as int));
            assert(all.take(i + 1).last() == list@[i as int]@);
        }
        out.insert(list[i].user.clone(), Rgb { rgb: list[i].rgb });
    }
    assert(all.take(all.len() as int) =~= all);
    out
}

/// The colors by user in a settings file, given its text where it could be read.
pub fn load_colors(text: &Option<String>) -> (r: TextMap<Rgb>)
    ensures
        r@ == colors_in(text_in(*text)),
{
    match text {
        Some(text) => match read_colors(text.as_str()) {
            Some(list) => colors_by_user(&list),
            None => TextMap::new(),
        },
        None => TextMap::new(),
    }
}

/// The colors of a table as a list, in the order of their users.
pub open spec fn color_list(colors: Map<Seq<char>, Seq<u8>>) -> Seq<ColorModel> {
    in_order(colors.dom()).map_values(|u: Seq<char>| ColorModel { user: u, rgb: colors[u] })
}

proof fn lemma_listed_colors(colors: Map<Seq<char>, Seq<u8>>, n: int)
    requires
        lists(in_order(colors.dom()), colors.dom()),
        0 <= n <= in_order(colors.dom()).len(),
    ensures
        ({
            let keys = in_order(colors.dom()).take(n);
            let some = by_user(color_list(colors).take(n));
            &&& forall|k: Seq<char>| keys.contains(k) <==> #[trigger] some.contains_key(k)
            &&& forall|k: Seq<char>| #[trigger] some.contains_key(k) ==> some[k] == colors[k]
        }),
    decreases n,
{
    let all = in_order(colors.dom());
    let list = color_list(colors);
    if n > 0 {
        lemma_listed_colors(colors, n - 1);
        assert(list.take(n).drop_last() =~= list.take(n - 1));
        assert(list.take(n).last() == list[n - 1]);
        let keys = all.take(n);
        let fewer = all.take(n - 1);
        let some = by_user(list.take(n));
        let before_last = by_user(list.take(n - 1));
        assert(list[n - 1].user == all[n - 1]);
        assert(some == before_last.insert(list[n - 1].user, list[n - 1].rgb));
        assert forall|k: Seq<char>| keys.contains(k) <==> #[trigger] some.contains_key(k) by {
            if keys.contains(k) {
                let i = choose|i: int| 0 <= i < keys.len() && keys[i] == k;
                if i < n - 1 {
                    assert(fewer[i] == k);
                    assert(before_last.contains_key(k));
                } else {
                    assert(k == list[n - 1].user);
                }
            }
            if some.contains_key(k) {
                if k == list[n - 1].user {
                    assert(keys[n - 1] == k);
                } else {
                    assert(before_last.contains_key(k));
                    assert(fewer.contains(k));
                    let i = choose|i: int| 0 <= i < fewer.len() && fewer[i] == k;
                    assert(keys[i] == k);
                }
            }
        }
    }
}

proof fn lemma_colors_list(colors: Map<Seq<char>, Seq<u8>>)
    requires
        lists(in_order(colors.dom()), colors.dom()),
    ensures
        by_user(color_list(colors)) == colors,
        users_increase(color_list(colors)),
{
    let all = in_order(colors.dom());
    let list = color_list(colors);
    lemma_listed_colors(colors, all.len() as int);
    assert(list.take(all.len() as int) =~= list);
    assert(all.take(all.len() as int) =~= all);
    assert(by_user(list) =~= colors);
    assert forall|i: int, j: int| 0 <= i < j < list.len() implies before(
        (#[trigger] list[i]).user,
        (#[trigger] list[j]).user,
    ) by {
        assert(before(all[i], all[j]));
    }
}

/// The list of a table's colors holds all of them, and nothing else.
pub proof fn law_colors_list(colors: Map<Seq<char>, Seq<u8>>)
    requires
        colors.dom().finite(),
    ensures
        by_user(color_list(colors)) == colors,
        users_increase(color_list(colors)),
{
    lemma_listable(colors.dom());
    lemma_colors_list(colors);
}

/// The text to keep colors in. Loading it gives the same colors.
pub fn save_colors(colors: &TextMap<Rgb>) -> (r: String)
    ensures
        r@ == colors_written(color_list(colors@)),
        colors_in(Some(r@)) == colors@,
{
    let n: usize = colors.len();
    let ghost want = color_list(colors@);
    let mut list: Vec<UserColor> = Vec::new();
    for i in 0..n
        invariant
            n == colors.keys().len(),
            want == color_list(colors@),
            color_models(list@) == want.take(i as int),
    {
        let ghost earlier = color_models(list@);
        let color = UserColor { user: colors.key_at(i).clone(), rgb: colors.value_at(i).rgb };
        let ghost it = color@;
        list.push(color);
        assert(want[i as int] == it);
        assert(color_models(list@) =~= earlier.push(it));
        assert(want.take(i + 1) =~= earlier.push(it));
    }
    assert(want.take(n as int) =~= want);
    proof {
        lemma_colors_list(colors@);
    }
    write_colors(&list)
}

/// The texts of an array of texts; none where one of the items is something else.
pub open spec fn text_items(items: Seq<JsonModel>) -> Option<Seq<Seq<char>>>
    decreases items.len(),
{
    if items.len() == 0 {
        Some(Seq::empty())
    } else {
        match (text_items(items.drop_last()), items.last()) {
            (Some(head), JsonModel::Text(t)) => Some(head.push(t)),
            _ => None,
        }
    }
}

/// The texts of a JSON value that is an array of texts; none of any other value.
pub open spec fn text_list(j: JsonModel) -> Seq<Seq<char>> {
    match j {
        JsonModel::Array(items) => match text_items(items) {
            Some(list) => list,
            None => Seq::empty(),
        },
        _ => Seq::empty(),
    }
}

/// The texts in a settings file that holds a list of texts; none where there is no
/// file or it holds something else.
pub open spec fn text_list_in(text: Option<Seq<char>>) -> Seq<Seq<char>> {
    match text {
        Some(text) => match parsed(vstd::utf8::encode_utf8(text)) {
            Ok(j) => text_list(j),
            Err(_) => Seq::empty(),
        },
        None => Seq::empty(),
    }
}

proof fn lemma_items_until(items: Seq<JsonModel>, n: int)
    requires
        0 <= n <= items.len(),
        text_items(items.take(n)) is None,
    ensures
        text_items(items) is None,
    decreases items.len() - n,
{
    if n < items.len() {
        assert(items.take(n + 1).drop_last() =~= items.take(n));
        lemma_items_until(items, n + 1);
    } else {
        assert(items.take(n) =~= items);
    }
}

/// The texts of a JSON value that is an array of texts; none of any other value.
pub fn texts_of(json: &Json) -> (r: Vec<String>)
    ensures
        texts(r@) == text_list(json@),
{
    let mut out: Vec<String> = Vec::new();
    assert(texts(out@) =~= Seq::empty());
    if let Some(items) = json.items() {
        let ghost all = values(items@);
        assert(all.take(0) =~= Seq::empty());
        for i in 0..items.len()
            invariant
                json@.items() == Some(all),
                all == values(items@),
                text_items(all.take(i as int)) == Some(texts(out@)),
        {
            let ghost earlier = texts(out@);
            proof {
                assert(all.take(i + 1).drop_last() =~= all.take(i as int));
                assert(all.take(i + 1).last() == items@[i as int]@);
            }
            match items[i].text() {
                Some(t) => {
                    let ghost it = t@;
                    out.push(t);
                    assert(texts(out@) =~= earlier.push(it));
                },
                None => {
                    proof {
                        lemma_items_until(all, i + 1);
                    }
                    let none: Vec<String> = Vec::new();
                    assert(texts(none@) =~= Seq::empty());
                    return none;
                },
            }
        }
        assert(all.take(all.len() as int) =~= all);
    }
    out
}

fn load_list(text: &Option<String>) -> (r: Vec<String>)
    ensures
        texts(r@) == text_list_in(text_in(*text)),
{
    if let Some(found) = text {
        if let Ok(json) = parse_json(found.as_str().as_bytes()) {
            return texts_of(&json);
        }
    }
    let none: Vec<String> = Vec::new();
    assert(texts(none@) =~= Seq::empty());
    none
}

/// The links to hide, given the text of their file where it could be read.
pub fn load_excludes(text: &Option<String>) -> (r: Vec<String>)
    ensures
        texts(r@) == text_list_in(text_in(*text)),
{
    load_list(text)
}

/// The accounts to ignore, given the text of their file where it could be read.
pub fn load_ignored(text: &Option<String>) -> (r: Vec<String>)
    ensures
        texts(r@) == text_list_in(text_in(*text)),
{
    load_list(text)
}

/// A list of texts as a JSON value.
pub open spec fn text_array(list: Seq<Seq<char>>) -> JsonModel {
    JsonModel::Array(list.map_values(|t: Seq<char>| JsonModel::Text(t)))
}

/// The items of a list of texts are its texts.
pub proof fn lemma_text_items(list: Seq<Seq<char>>)
    ensures
        text_items(text_array(list)->Array_0) == Some(list),
    decreases list.len(),
{
    let items = text_array(list)->Array_0;
    if list.len() == 0 {
        assert(list =~= Seq::empty());
    } else {
        lemma_text_items(list.drop_last());
        assert(items.drop_last() =~= text_array(list.drop_last())->Array_0);
        assert(list.drop_last().push(list.last()) =~= list);
    }
}

/// The JSON array of a list of texts.
pub fn text_array_of(list: &Vec<String>) -> (r: Json)
    ensures
        r@ == text_array(texts(list@)),
{
    let ghost want = text_array(texts(list@))->Array_0;
    let mut items: Vec<Json> = Vec::new();
    for i in 0..list.len()
        invariant
            want == text_array(texts(list@))->Array_0,
            values(items@) == want.take(i as int),
    {
        let ghost earlier = values(items@);
        let item = text_value(list[i].as_str());
        let ghost it = item@;
        items.push(item);
        assert(want[i as int] == it);
        assert(values(items@) =~= earlier.push(it));
        assert(want.take(i + 1) =~= earlier.push(it));
    }
    assert(want.take(want.len() as int) =~= want);
    array_value(items)
}

fn save_list(list: &Vec<String>) -> (r: String)
    ensures
        r@ == rendered(text_array(texts(list@))),
        text_list_in(Some(r@)) == texts(list@),
{
    let json = text_array_of(list);
    proof {
        lemma_text_items(texts(list@));
        reveal_with_fuel(orderly, 2);
    }
    render_json(&json)
}

/// The text to keep the links to hide in. Loading it gives the same list.
pub fn save_excludes(list: &Vec<String>) -> (r: String)
    ensures
        r@ == rendered(text_array(texts(list@))),
        text_list_in(Some(r@)) == texts(list@),
{
    save_list(list)
}

/// The text to keep the accounts to ignore in. Loading it gives the same list.
pub fn save_ignored(list: &Vec<String>) -> (r: String)
    ensures
        r@ == rendered(text_array(texts(list@))),
        text_list_in(Some(r@)) == texts(list@),
{
    save_list(list)
}

/// Settings are kept in `.config/gh-review-insight` below the home directory, each
/// under its name; without a home directory nowhere.
pub proof fn law_settings_file(home: Seq<char>, name: Seq<char>)
    ensures
        home.len() > 0 && home.last() != '/' ==> settings_file(Some(home), name) == Some(
            home + "/.config/gh-review-insight/"@ + name,
        ),
        settings_file(None, name) is None,
{
    reveal_strlit("/.config/gh-review-insight/");
    reveal_strlit(".config/gh-review-insight");
    reveal_strlit("/");
    if home.len() > 0 && home.last() != '/' {
        let dir = settings_dir(home);
        assert(dir.last() == 't');
        assert(settings_file(Some(home), name)->0 =~= home + "/.config/gh-review-insight/"@ + name);
    }
}

/// A list of texts is read from an array whose items are all texts, in order; from
/// anything else nothing is read.
pub proof fn law_text_list(j: JsonModel)
    ensures
        match j {
            JsonModel::Array(items) => {
                &&& (forall|i: int| 0 <= i < items.len() ==> (#[trigger] items[i]) is Text)
                    ==> text_list(j).len() == items.len() && forall|i: int|
                    0 <= i < items.len() ==> #[trigger] items[i] == JsonModel::Text(text_list(j)[i])
                &&& (exists|i: int| 0 <= i < items.len() && !((#[trigger] items[i]) is Text))
                    ==> text_list(j).len() == 0
            },
            _ => text_list(j).len() == 0,
        },
{
    if let JsonModel::Array(items) = j {
        lemma_items_are_texts(items);
    }
}

proof fn lemma_items_are_texts(items: Seq<JsonModel>)
    ensures
        match text_items(items) {
            Some(list) => list.len() == items.len() && forall|i: int|
                0 <= i < items.len() ==> #[trigger] items[i] == JsonModel::Text(list[i]),
            None => exists|i: int| 0 <= i < items.len() && !((#[trigger] items[i]) is Text),
        },
    decreases items.len(),
{
    if items.len() > 0 {
        let less = items.drop_last();
        lemma_items_are_texts(less);
        match text_items(items) {
            Some(list) => {
                assert forall|i: int| 0 <= i < items.len() implies #[trigger] items[i]
                    == JsonModel::Text(list[i]) by {
                    if i < less.len() {
                        assert(less[i] == items[i]);
                    }
                }
            },
            None => {
                if text_items(less) is None {
                    let i = choose|i: int| 0 <= i < less.len() && !((#[trigger] less[i]) is Text);
                    assert(!(items[i] is Text));
                } else {
                    assert(!(items[items.len() - 1] is Text));
                }
            },
        }
    }
}

/// The colors of a list belong to their users; of two for one user the later counts.
pub proof fn law_colors_by_user(list: Seq<ColorModel>, user: Seq<char>, i: int)
    requires
        0 <= i < list.len(),
        list[i].user == user,
        forall|j: int| i < j < list.len() ==> (#[trigger] list[j]).user != user,
    ensures
        by_user(list).contains_key(user),
        by_user(list)[user] == list[i].rgb,
    decreases list.len(),
{
    if i < list.len() - 1 {
        let less = list.drop_last();
        assert(list[list.len() - 1].user != user);
        assert forall|j: int| i < j < less.len() implies (#[trigger] less[j]).user != user by {
            assert(list[j].user != user);
        }
        law_colors_by_user(less, user, i);
    }
}

/// Only users of the list have a color.
pub proof fn law_no_other_colors(list: Seq<ColorModel>, user: Seq<char>)
    requires
        forall|j: int| 0 <= j < list.len() ==> (#[trigger] list[j]).user != user,
    ensures
        !by_user(list).contains_key(user),
    decreases list.len(),
{
    if list.len() > 0 {
        let less = list.drop_last();
        assert(list[list.len() - 1].user != user);
        assert forall|j: int| 0 <= j < less.len() implies (#[trigger] less[j]).user != user by {
            assert(list[j].user != user);
        }
        law_no_other_colors(less, user);
    }
}

/// Each of the settings has a place of its own, named after what is kept there.
pub proof fn law_settings_apart(home: Seq<char>)
    ensures
        forall|i: int, j: int|
            0 <= i < j < places_of(home).len() ==> #[trigger] places_of(home)[i]
                != #[trigger] places_of(home)[j],
        colors_file(Some(home)) matches Some(p) && "colors.json"@.is_suffix_of(p),
        excludes_file(Some(home)) matches Some(p) && "excludes.json"@.is_suffix_of(p),
        ignored_file(Some(home)) matches Some(p) && "ignored.json"@.is_suffix_of(p),
        sessions_file(Some(home)) matches Some(p) && "ai_sessions.json"@.is_suffix_of(p),
        launched_file(Some(home)) matches Some(p) && "ai_launched.json"@.is_suffix_of(p),
        workspace_of(Some(home)) matches Some(p) && "workspace"@.is_suffix_of(p),
        window_file(Some(home)) matches Some(p) && "review_browser_window.json"@.is_suffix_of(p),
{
    let dir = settings_dir(home);
    law_below(dir, "colors.json"@);
    law_below(dir, "excludes.json"@);
    law_below(dir, "ignored.json"@);
    law_below(dir, "ai_sessions.json"@);
    law_below(dir, "ai_launched.json"@);
    law_below(dir, "workspace"@);
    law_below(dir, "review_browser_window.json"@);
    reveal_strlit("colors.json");
    reveal_strlit("excludes.json");
    reveal_strlit("ignored.json");
    reveal_strlit("ai_sessions.json");
    reveal_strlit("ai_launched.json");
    reveal_strlit("workspace");
    reveal_strlit("review_browser_window.json");
    assert("colors.json"@.len() == 11 && "excludes.json"@.len() == 13 && "ignored.json"@.len()
        == 12 && "ai_sessions.json"@.len() == 16 && "ai_launched.json"@.len() == 16
        && "workspace"@.len() == 9 && "review_browser_window.json"@.len() == 26);
    let s = "ai_sessions.json"@;
    let l = "ai_launched.json"@;
    assert(s[3] != l[3]);
    let a = sessions_file(Some(home))->0;
    let b = launched_file(Some(home))->0;
    assert(a.len() == b.len());
    let at = a.len() - 16;
    assert(a.subrange(at, a.len() as int)[3] == s[3]);
    assert(b.subrange(at, b.len() as int)[3] == l[3]);
    assert(a[at + 3] != b[at + 3]);
}

/// The places of all settings.
pub open spec fn places_of(home: Seq<char>) -> Seq<Seq<char>> {
    seq![
        colors_file(Some(home))->0,
        excludes_file(Some(home))->0,
        ignored_file(Some(home))->0,
        sessions_file(Some(home))->0,
        launched_file(Some(home))->0,
        workspace_of(Some(home))->0,
        window_file(Some(home))->0,
    ]
}

} // verus!
