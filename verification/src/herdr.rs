//! herdr, the terminal workspace manager that hosts one tab per reviewed pull
//! request: its arguments and the reading of its replies. A list of runs holds
//! what the runs asked for so far gave; a run without output found no herdr.
use vstd::prelude::*;

use crate::gh::reply_in;
use crate::json::{parse_json, parsed, text_in, values, Json, JsonModel};
use crate::process::{arguments, lossy, text_of, Output, OutputModel};
use crate::records::{
    read_launch, read_launched, table_in, LaunchedModel, LaunchedRecord,
};
use crate::resolve::{below, find_present, first_present, join_path};
use crate::text::{after_last, cat, cat3, last_part, same, texts, trim, trimmed};
use crate::textmap::{lists, TextMap};

verus! {

/// herdr workspace that hosts the review tabs.
pub const HERDR_WORKSPACE_LABEL: &'static str = "gh-review";

/// What is known of a run of herdr.
pub open spec fn run_model(run: Option<Output>) -> Option<OutputModel> {
    match run {
        Some(output) => Some(output@),
        None => None,
    }
}

/// The runs of a list.
pub open spec fn run_models(list: Seq<Option<Output>>) -> Seq<Option<OutputModel>> {
    list.map_values(|run: Option<Output>| run_model(run))
}

/// Where herdr may stand.
pub open spec fn herdr_places(home: Option<Seq<char>>) -> Seq<Seq<char>> {
    let rest = seq!["/opt/homebrew/bin/herdr"@, "/usr/local/bin/herdr"@];
    match home {
        Some(home) => seq![below(home, ".local/bin/herdr"@)] + rest,
        None => rest,
    }
}

/// Where herdr may stand.
pub fn herdr_candidates(home: &Option<String>) -> (r: Vec<String>)
    ensures
        texts(r@) == herdr_places(text_in(*home)),
{
    match home {
        Some(home) => {
            let own = join_path(home.as_str(), ".local/bin/herdr");
            let r = arguments(&[own.as_str(), "/opt/homebrew/bin/herdr", "/usr/local/bin/herdr"]);
            assert(texts(r@) =~= herdr_places(Some(home@)));
            r
        },
        None => {
            let r = arguments(&["/opt/homebrew/bin/herdr", "/usr/local/bin/herdr"]);
            assert(texts(r@) =~= herdr_places(None));
            r
        },
    }
}

/// The herdr binary, when installed. `existing` lists the paths that exist.
pub fn find_herdr(home: &Option<String>, existing: &Vec<String>) -> (r: Option<String>)
    ensures
        text_in(r) == first_present(herdr_places(text_in(*home)), texts(existing@)),
{
    find_present(&herdr_candidates(home), existing)
}

/// The `result` in an answer of herdr to a command, or the error that it reports.
pub open spec fn result_in(command: Seq<char>, value: JsonModel) -> Result<JsonModel, Seq<char>> {
    if value.has("error"@) {
        Err(
            "herdr "@ + command + ": "@ + match value.at("error"@).at("message"@).text() {
                Some(message) => message,
                None => "不明なエラー"@,
            },
        )
    } else {
        Ok(value.at("result"@))
    }
}

/// What a run of herdr replies to a command: the `result` of the JSON value it
/// printed, or the reason why there is none.
pub open spec fn herdr_reply(
    command: Seq<char>,
    run: Option<OutputModel>,
) -> Result<JsonModel, Seq<char>> {
    match run {
        None => Err("herdr が見つかりませんでした。"@),
        Some(OutputModel::NotStarted(reason)) => Err(
            "herdr を実行できませんでした: "@ + reason,
        ),
        Some(OutputModel::Ended { success, stdout, stderr }) => match parsed(stdout) {
            Err(_) => if trimmed(lossy(stderr)).len() == 0 {
                Err("herdr "@ + command + " がJSON応答を返しませんでした。"@)
            } else {
                Err(trimmed(lossy(stderr)))
            },
            Ok(value) => result_in(command, value),
        },
    }
}

/// The `result` in an answer of herdr. herdr reports failures as an `error` object,
/// which is surfaced as the error.
pub fn read_result(command: &str, value: &Json) -> (r: Result<Json, String>)
    ensures
        reply_in(r) == result_in(command@, value@),
{
    match value.get("error") {
        Some(error) => {
            let message = match error.text_at("message") {
                Some(message) => message,
                None => "不明なエラー".to_owned(),
            };
            Err(cat3(cat("herdr ", command).as_str(), ": ", message.as_str()))
        },
        None => match value.get("result") {
            Some(result) => Ok(result.copy()),
            None => Ok(Json::Null),
        },
    }
}

/// The JSON `result` payload of a run of herdr, or the reason why there is none.
pub fn herdr_run(command: &str, run: &Option<Output>) -> (r: Result<Json, String>)
    ensures
        reply_in(r) == herdr_reply(command@, run_model(*run)),
{
    match run {
        None => Err("herdr が見つかりませんでした。".to_owned()),
        Some(Output::NotStarted(reason)) => Err(
            cat("herdr を実行できませんでした: ", reason.as_str()),
        ),
        Some(Output::Ended { success: _, stdout, stderr }) => {
            match parse_json(stdout.as_slice()) {
                Err(_) => {
                    let reason = trim(text_of(stderr.as_slice()).as_str());
                    if reason.as_str().is_empty() {
                        Err(cat3("herdr ", command, " がJSON応答を返しませんでした。"))
                    } else {
                        Err(reason)
                    }
                },
                Ok(value) => read_result(command, &value),
            }
        },
    }
}

/// The first of `items` with the label of the review workspace.
pub open spec fn first_labelled(items: Seq<JsonModel>) -> Option<JsonModel>
    decreases items.len(),
{
    if items.len() == 0 {
        None
    } else if items[0].at("label"@).text() == Some(HERDR_WORKSPACE_LABEL@) {
        Some(items[0])
    } else {
        first_labelled(items.skip(1))
    }
}

/// The id of the review workspace in a list of workspaces, where it is there.
pub open spec fn workspace_in(list: JsonModel) -> Option<Seq<char>> {
    match first_labelled(list.at("workspaces"@).items_or_none()) {
        Some(workspace) => workspace.at("workspace_id"@).text(),
        None => None,
    }
}

/// The id of the review workspace in a list of workspaces, where it is there.
pub fn find_workspace(list: &Json) -> (r: Option<String>)
    ensures
        text_in(r) == workspace_in(list@),
{
    match list.items_at("workspaces") {
        Some(items) => {
            let ghost all = values(items@);
            assert(all.skip(0) =~= all);
            for i in 0..items.len()
                invariant
                    all == values(items@),
                    list@.at("workspaces"@).items_or_none() == all,
                    first_labelled(all) == first_labelled(all.skip(i as int)),
            {
                let ghost rest = all.skip(i as int);
                assert(rest[0] == items@[i as int]@);
                assert(rest.skip(1) =~= all.skip(i + 1));
                if let Some(label) = items[i].text_at("label") {
                    if same(label.as_str(), HERDR_WORKSPACE_LABEL) {
                        return items[i].text_at("workspace_id");
                    }
                }
            }
            None
        },
        None => None,
    }
}

/// The arguments that list the workspaces.
pub open spec fn list_args() -> Seq<Seq<char>> {
    seq!["workspace"@, "list"@]
}

/// The arguments that create the review workspace.
pub open spec fn create_args(cwd: Seq<char>) -> Seq<Seq<char>> {
    seq![
        "workspace"@,
        "create"@,
        "--label"@,
        HERDR_WORKSPACE_LABEL@,
        "--no-focus"@,
        "--cwd"@,
        cwd,
    ]
}

fn list_arguments() -> (r: Vec<String>)
    ensures
        texts(r@) == list_args(),
{
    let r = arguments(&["workspace", "list"]);
    assert(texts(r@) =~= list_args());
    r
}

/// What finding the review workspace comes to: a run to do, its id and how many
/// runs that took, or a failure.
pub enum WorkspaceStep {
    Run(Vec<String>),
    Known { id: String, used: usize },
    Failed(String),
}

/// What finding the review workspace comes to.
#[verifier::ext_equal]
pub enum WorkspaceModel {
    Run(Seq<Seq<char>>),
    Known { id: Seq<char>, used: int },
    Failed(Seq<char>),
}

impl View for WorkspaceStep {
    type V = WorkspaceModel;

    open spec fn view(&self) -> WorkspaceModel {
        match self {
            WorkspaceStep::Run(args) => WorkspaceModel::Run(texts(args@)),
            WorkspaceStep::Known { id, used } => WorkspaceModel::Known {
                id: id@,
                used: *used as int,
            },
            WorkspaceStep::Failed(reason) => WorkspaceModel::Failed(reason@),
        }
    }
}

/// Finding the review workspace: the workspaces are listed, and it is created
/// where none of them is the one.
pub open spec fn workspace_run(cwd: Seq<char>, runs: Seq<Option<OutputModel>>) -> WorkspaceModel {
    if runs.len() == 0 {
        WorkspaceModel::Run(list_args())
    } else {
        match herdr_reply("workspace"@, runs[0]) {
            Err(reason) => WorkspaceModel::Failed(reason),
            Ok(list) => match workspace_in(list) {
                Some(id) => WorkspaceModel::Known { id, used: 1 },
                None => if runs.len() == 1 {
                    WorkspaceModel::Run(create_args(cwd))
                } else {
                    match herdr_reply("workspace"@, runs[1]) {
                        Err(reason) => WorkspaceModel::Failed(reason),
                        Ok(created) => match created.at("workspace"@).at("workspace_id"@).text() {
                            Some(id) => WorkspaceModel::Known { id, used: 2 },
                            None => WorkspaceModel::Failed(
                                "herdr workspace create の応答から id を取得できませんでした。"@,
                            ),
                        },
                    }
                },
            },
        }
    }
}

/// Find or create the dedicated review workspace.
pub fn ensure_herdr_workspace(cwd: &str, runs: &Vec<Option<Output>>) -> (r: WorkspaceStep)
    ensures
        r@ == workspace_run(cwd@, run_models(runs@)),
{
    if runs.len() == 0 {
        return WorkspaceStep::Run(list_arguments());
    }
    let list = match herdr_run("workspace", &runs[0]) {
        Err(reason) => return WorkspaceStep::Failed(reason),
        Ok(list) => list,
    };
    if let Some(id) = find_workspace(&list) {
        return WorkspaceStep::Known { id, used: 1 };
    }
    if runs.len() == 1 {
        let args = arguments(
            &["workspace", "create", "--label", HERDR_WORKSPACE_LABEL, "--no-focus", "--cwd", cwd],
        );
        assert(texts(args@) =~= create_args(cwd@));
        return WorkspaceStep::Run(args);
    }
    match herdr_run("workspace", &runs[1]) {
        Err(reason) => WorkspaceStep::Failed(reason),
        Ok(created) => match created.text_within("workspace", "workspace_id") {
            Some(id) => WorkspaceStep::Known { id, used: 2 },
            None => WorkspaceStep::Failed(
                "herdr workspace create の応答から id を取得できませんでした。".to_owned(),
            ),
        },
    }
}

/// The labels of panes by terminal id; of two panes with one id the later counts.
pub open spec fn pane_labels(panes: Seq<JsonModel>) -> Map<Seq<char>, Seq<char>>
    decreases panes.len(),
{
    if panes.len() == 0 {
        Map::empty()
    } else {
        let rest = pane_labels(panes.drop_last());
        match (panes.last().at("terminal_id"@).text(), panes.last().at("label"@).text()) {
            (Some(id), Some(label)) => rest.insert(id, label),
            _ => rest,
        }
    }
}

/// The arguments that list the panes of a workspace.
pub open spec fn panes_args(id: Seq<char>) -> Seq<Seq<char>> {
    seq!["pane"@, "list"@, "--workspace"@, id]
}

/// What finding the live reviews comes to: a run to do, or their labels by
/// terminal id.
pub enum LiveStep {
    Run(Vec<String>),
    Done(TextMap<String>),
}

/// What finding the live reviews comes to.
#[verifier::ext_equal]
pub enum LiveModel {
    Run(Seq<Seq<char>>),
    Done(Map<Seq<char>, Seq<char>>),
}

impl View for LiveStep {
    type V = LiveModel;

    open spec fn view(&self) -> LiveModel {
        match self {
            LiveStep::Run(args) => LiveModel::Run(texts(args@)),
            LiveStep::Done(live) => LiveModel::Done(live@),
        }
    }
}

/// Finding the live reviews: none where herdr or its server does not run, or where
/// the review workspace is not there.
pub open spec fn live_run(runs: Seq<Option<OutputModel>>) -> LiveModel {
    if runs.len() == 0 {
        LiveModel::Run(list_args())
    } else {
        match herdr_reply("workspace"@, runs[0]) {
            Err(_) => LiveModel::Done(Map::empty()),
            Ok(list) => match workspace_in(list) {
                None => LiveModel::Done(Map::empty()),
                Some(id) => if runs.len() == 1 {
                    LiveModel::Run(panes_args(id))
                } else {
                    match herdr_reply("pane"@, runs[1]) {
                        Err(_) => LiveModel::Done(Map::empty()),
                        Ok(panes) => LiveModel::Done(
                            pane_labels(panes.at("panes"@).items_or_none()),
                        ),
                    }
                },
            },
        }
    }
}

fn labels_of(panes: &Json) -> (r: TextMap<String>)
    ensures
        r@ == pane_labels(panes@.at("panes"@).items_or_none()),
{
    let mut out: TextMap<String> = TextMap::new();
    if let Some(items) = panes.items_at("panes") {
        let ghost all = values(items@);
        for i in 0..items.len()
            invariant
                all == values(items@),
                out@ == pane_labels(all.take(i as int)),
        {
            proof {
                assert(all.take(i + 1).drop_last() =~= all.take(i as int));
                assert(all.take(i + 1).last() == items@[i as int]@);
            }
            match (items[i].text_at("terminal_id"), items[i].text_at("label")) {
                (Some(id), Some(label)) => out.insert(id, label),
                _ => {},
            }
        }
        assert(all.take(all.len() as int) =~= all);
    }
    out
}

/// The live review panes in the herdr workspace: terminal id -> label.
/// Empty when herdr (or its server) is not running — panes are dead then.
pub fn live_herdr_reviews(runs: &Vec<Option<Output>>) -> (r: LiveStep)
    ensures
        r@ == live_run(run_models(runs@)),
{
    if runs.len() == 0 {
        return LiveStep::Run(list_arguments());
    }
    let list = match herdr_run("workspace", &runs[0]) {
        Err(_) => return LiveStep::Done(TextMap::new()),
        Ok(list) => list,
    };
    let id = match find_workspace(&list) {
        None => return LiveStep::Done(TextMap::new()),
        Some(id) => id,
    };
    if runs.len() == 1 {
        let args = arguments(&["pane", "list", "--workspace", id.as_str()]);
        assert(texts(args@) =~= panes_args(id@));
        return LiveStep::Run(args);
    }
    match herdr_run("pane", &runs[1]) {
        Err(_) => LiveStep::Done(TextMap::new()),
        Ok(panes) => LiveStep::Done(labels_of(&panes)),
    }
}

/// Whether the pane of a launched review is alive with the expected tab name.
pub open spec fn is_live(record: LaunchedModel, live: Map<Seq<char>, Seq<char>>) -> bool {
    live.contains_key(record.pane_id) && live[record.pane_id] == record.window_name
}

/// The launched reviews whose panes are alive.
pub open spec fn kept_reviews(
    all: Map<Seq<char>, LaunchedModel>,
    live: Map<Seq<char>, Seq<char>>,
) -> Map<Seq<char>, LaunchedModel> {
    Map::new(
        |url: Seq<char>| all.contains_key(url) && is_live(all[url], live),
        |url: Seq<char>| all[url],
    )
}

/// What loading the launched reviews comes to: a run to do, or the reviews that
/// are kept and whether their file has to be written anew.
pub enum LoadStep {
    Run(Vec<String>),
    Done { kept: TextMap<LaunchedRecord>, rewrite: bool },
}

/// What loading the launched reviews comes to.
#[verifier::ext_equal]
pub enum LoadModel {
    Run(Seq<Seq<char>>),
    Done { kept: Map<Seq<char>, LaunchedModel>, rewrite: bool },
}

impl View for LoadStep {
    type V = LoadModel;

    open spec fn view(&self) -> LoadModel {
        match self {
            LoadStep::Run(args) => LoadModel::Run(texts(args@)),
            LoadStep::Done { kept, rewrite } => LoadModel::Done { kept: kept@, rewrite: *rewrite },
        }
    }
}

/// Loading the launched reviews: herdr is asked only where there are some.
pub open spec fn load_run(
    all: Map<Seq<char>, LaunchedModel>,
    runs: Seq<Option<OutputModel>>,
) -> LoadModel {
    if all == Map::<Seq<char>, LaunchedModel>::empty() {
        LoadModel::Done { kept: all, rewrite: false }
    } else {
        match live_run(runs) {
            LiveModel::Run(args) => LoadModel::Run(args),
            LiveModel::Done(live) => LoadModel::Done {
                kept: kept_reviews(all, live),
                rewrite: kept_reviews(all, live) != all,
            },
        }
    }
}

fn keep_live(all: &TextMap<LaunchedRecord>, live: &TextMap<String>) -> (r: (
    TextMap<LaunchedRecord>,
    bool,
))
    ensures
        r.0@ == kept_reviews(all@, live@),
        r.1 == (kept_reviews(all@, live@) != all@),
{
    let n: usize = all.len();
    let ghost keys = all.keys();
    let ghost want = kept_reviews(all@, live@);
    let mut kept: TextMap<LaunchedRecord> = TextMap::new();
    let mut dropped: bool = false;
    for i in 0..n
        invariant
            n == all.keys().len(),
            keys == all.keys(),
            lists(keys, all@.dom()),
            want == kept_reviews(all@, live@),
            forall|k: Seq<char>| #[trigger]
                kept@.contains_key(k) <==> keys.take(i as int).contains(k) && want.contains_key(k),
            forall|k: Seq<char>| #[trigger] kept@.contains_key(k) ==> kept@[k] == all@[k],
            dropped ==> want != all@,
            !dropped ==> forall|j: int| 0 <= j < i ==> want.contains_key(#[trigger] keys[j]),
    {
        let ghost was = kept@;
        let ghost key = keys[i as int];
        let url = all.key_at(i);
        let record = all.value_at(i);
        let alive: bool = match live.get(record.pane_id.as_str()) {
            Some(label) => same(label.as_str(), record.window_name.as_str()),
            None => false,
        };
        proof {
            assert(keys.contains(key));
            assert(all@.contains_key(key));
            assert(want.contains_key(key) == alive);
            let now = keys.take(i + 1);
            let less = keys.take(i as int);
            assert forall|k: Seq<char>| #[trigger] now.contains(k) <==> less.contains(k) || k
                == key by {
                if now.contains(k) {
                    let j = choose|j: int| 0 <= j < now.len() && now[j] == k;
                    if j < i {
                        assert(less[j] == k);
                    }
                }
                if less.contains(k) {
                    let j = choose|j: int| 0 <= j < less.len() && less[j] == k;
                    assert(now[j] == k);
                }
                if k == key {
                    assert(now[i as int] == k);
                }
            }
        }
        if alive {
            kept.insert(url.clone(), record.copy());
        } else {
            dropped = true;
        }
    }
    proof {
        assert(keys.take(n as int) =~= keys);
        assert(kept@ =~= want);
        if !dropped {
            assert forall|k: Seq<char>| #[trigger]
                all@.contains_key(k) implies want.contains_key(k) by {
                assert(keys.contains(k));
                let j = choose|j: int| 0 <= j < keys.len() && keys[j] == k;
                assert(want.contains_key(keys[j]));
            }
            assert(want =~= all@);
        }
    }
    (kept, dropped)
}

/// Load persisted launched reviews, keeping only entries whose herdr pane is still
/// alive with the expected tab name. The file is to be written anew when stale
/// entries were dropped.
pub fn load_launched_reviews(text: &Option<String>, runs: &Vec<Option<Output>>) -> (r: LoadStep)
    ensures
        r@ == load_run(table_in(text_in(*text), read_launch()), run_models(runs@)),
{
    let all = read_launched(text);
    if all.len() == 0 {
        proof {
            assert forall|k: Seq<char>| !all@.contains_key(k) by {
                assert(all.keys().contains(k) <==> all@.dom().contains(k));
            }
            assert(all@ =~= Map::<Seq<char>, LaunchedModel>::empty());
        }
        return LoadStep::Done { kept: all, rewrite: false };
    }
    proof {
        assert(all.keys().contains(all.keys()[0]));
        assert(all@.dom().contains(all.keys()[0]));
    }
    match live_herdr_reviews(runs) {
        LiveStep::Run(args) => LoadStep::Run(args),
        LiveStep::Done(live) => {
            let (kept, rewrite) = keep_live(&all, &live);
            LoadStep::Done { kept, rewrite }
        },
    }
}

/// The arguments that start the AI on a pull request.
pub open spec fn start_args(
    name: Seq<char>,
    id: Seq<char>,
    cwd: Seq<char>,
    program: Seq<char>,
    prompt: Seq<char>,
) -> Seq<Seq<char>> {
    seq![
        "agent"@,
        "start"@,
        name,
        "--workspace"@,
        id,
        "--cwd"@,
        cwd,
        "--no-focus"@,
        "--"@,
        program,
        prompt,
    ]
}

/// The arguments that move a pane to a tab of its own.
pub open spec fn move_args(pane: Seq<char>, id: Seq<char>, name: Seq<char>) -> Seq<Seq<char>> {
    seq![
        "pane"@,
        "move"@,
        pane,
        "--new-tab"@,
        "--workspace"@,
        id,
        "--label"@,
        name,
        "--no-focus"@,
    ]
}

/// What launching a review comes to: a run to do, the record of the launched
/// review, or a failure.
pub enum LaunchStep {
    Run(Vec<String>),
    Done(LaunchedRecord),
    Failed(String),
}

/// What launching a review comes to.
#[verifier::ext_equal]
pub enum LaunchModel {
    Run(Seq<Seq<char>>),
    Done(LaunchedModel),
    Failed(Seq<char>),
}

impl View for LaunchStep {
    type V = LaunchModel;

    open spec fn view(&self) -> LaunchModel {
        match self {
            LaunchStep::Run(args) => LaunchModel::Run(texts(args@)),
            LaunchStep::Done(record) => LaunchModel::Done(record@),
            LaunchStep::Failed(reason) => LaunchModel::Failed(reason@),
        }
    }
}

/// Launching a review in the workspace that is known after `used` runs: the agent
/// is started, then its pane moved to a tab of its own.
pub open spec fn agent_run(
    name: Seq<char>,
    id: Seq<char>,
    cwd: Seq<char>,
    program: Seq<char>,
    prompt: Seq<char>,
    used: int,
    runs: Seq<Option<OutputModel>>,
) -> LaunchModel {
    if used >= runs.len() {
        LaunchModel::Run(start_args(name, id, cwd, program, prompt))
    } else {
        match herdr_reply("agent"@, runs[used]) {
            Err(reason) => LaunchModel::Failed(reason),
            Ok(started) => {
                let terminal = started.at("agent"@).at("terminal_id"@).text_or_empty();
                let pane = started.at("agent"@).at("pane_id"@).text_or_empty();
                if terminal.len() == 0 || pane.len() == 0 {
                    LaunchModel::Failed(
                        "herdr agent start の応答から id を取得できませんでした。"@,
                    )
                } else if used + 1 >= runs.len() {
                    LaunchModel::Run(move_args(pane, id, name))
                } else {
                    match herdr_reply("pane"@, runs[used + 1]) {
                        Err(reason) => LaunchModel::Failed(reason),
                        Ok(_) => LaunchModel::Done(
                            LaunchedModel { pane_id: terminal, window_name: name },
                        ),
                    }
                }
            },
        }
    }
}

/// Launching a review: the workspace, then the agent in it. The tab is named by
/// the part of the PR key after the owner.
pub open spec fn launch_run(
    pr_url: Seq<char>,
    pr_key: Seq<char>,
    cwd: Seq<char>,
    program: Seq<char>,
    runs: Seq<Option<OutputModel>>,
) -> LaunchModel {
    match workspace_run(cwd, runs) {
        WorkspaceModel::Run(args) => LaunchModel::Run(args),
        WorkspaceModel::Failed(reason) => LaunchModel::Failed(reason),
        WorkspaceModel::Known { id, used } => agent_run(
            after_last(pr_key, '/'),
            id,
            cwd,
            program,
            pr_url,
            used,
            runs,
        ),
    }
}

/// Start an interactive AI run for one PR as a herdr agent in the dedicated review
/// workspace, moved into its own labeled tab (one tab per PR).
pub fn launch_in_herdr(
    prompt: &str,
    pr_key: &str,
    cwd: &str,
    program: &str,
    runs: &Vec<Option<Output>>,
) -> (r: LaunchStep)
    ensures
        r@ == launch_run(prompt@, pr_key@, cwd@, program@, run_models(runs@)),
{
    let (id, used) = match ensure_herdr_workspace(cwd, runs) {
        WorkspaceStep::Run(args) => return LaunchStep::Run(args),
        WorkspaceStep::Failed(reason) => return LaunchStep::Failed(reason),
        WorkspaceStep::Known { id, used } => (id, used),
    };
    let name = last_part(pr_key, '/');
    if used >= runs.len() {
        let args = arguments(
            &[
                "agent",
                "start",
                name.as_str(),
                "--workspace",
                id.as_str(),
                "--cwd",
                cwd,
                "--no-focus",
                "--",
                program,
                prompt,
            ],
        );
        assert(texts(args@) =~= start_args(name@, id@, cwd@, program@, prompt@));
        return LaunchStep::Run(args);
    }
    let started = match herdr_run("agent", &runs[used]) {
        Err(reason) => return LaunchStep::Failed(reason),
        Ok(started) => started,
    };
    let terminal = started.text_or_empty_within("agent", "terminal_id");
    let pane = started.text_or_empty_within("agent", "pane_id");
    if terminal.as_str().is_empty() || pane.as_str().is_empty() {
        return LaunchStep::Failed(
            "herdr agent start の応答から id を取得できませんでした。".to_owned(),
        );
    }
    if used + 1 >= runs.len() {
        let args = arguments(
            &[
                "pane",
                "move",
                pane.as_str(),
                "--new-tab",
                "--workspace",
                id.as_str(),
                "--label",
                name.as_str(),
                "--no-focus",
            ],
        );
        assert(texts(args@) =~= move_args(pane@, id@, name@));
        return LaunchStep::Run(args);
    }
    match herdr_run("pane", &runs[used + 1]) {
        Err(reason) => LaunchStep::Failed(reason),
        Ok(_) => LaunchStep::Done(LaunchedRecord { pane_id: terminal, window_name: name }),
    }
}

/// A launched review has a pane id, so that its record is kept on disk, and its
/// tab is named by the part of the PR key after the owner.
pub proof fn law_launched_has_id(
    pr_url: Seq<char>,
    pr_key: Seq<char>,
    cwd: Seq<char>,
    program: Seq<char>,
    runs: Seq<Option<OutputModel>>,
)
    requires
        launch_run(pr_url, pr_key, cwd, program, runs) is Done,
    ensures
        launch_run(pr_url, pr_key, cwd, program, runs)->Done_0.pane_id.len() > 0,
        launch_run(pr_url, pr_key, cwd, program, runs)->Done_0.window_name == after_last(
            pr_key,
            '/',
        ),
{
}

/// A launch takes four runs at most.
pub proof fn law_launch_ends(
    pr_url: Seq<char>,
    pr_key: Seq<char>,
    cwd: Seq<char>,
    program: Seq<char>,
    runs: Seq<Option<OutputModel>>,
)
    requires
        runs.len() >= 4,
    ensures
        !(launch_run(pr_url, pr_key, cwd, program, runs) is Run),
{
}

/// Once a launch is done or has failed, further runs change nothing.
pub proof fn law_launch_settled(
    pr_url: Seq<char>,
    pr_key: Seq<char>,
    cwd: Seq<char>,
    program: Seq<char>,
    runs: Seq<Option<OutputModel>>,
    more: Seq<Option<OutputModel>>,
)
    requires
        !(launch_run(pr_url, pr_key, cwd, program, runs) is Run),
    ensures
        launch_run(pr_url, pr_key, cwd, program, runs + more) == launch_run(
            pr_url,
            pr_key,
            cwd,
            program,
            runs,
        ),
{
    let all = runs + more;
    assert(forall|i: int| 0 <= i < runs.len() ==> all[i] == runs[i]);
    assert(workspace_run(cwd, all) == workspace_run(cwd, runs));
}

/// Without herdr, or with its server down, no launched review is kept.
pub proof fn law_dead_server_keeps_none(
    all: Map<Seq<char>, LaunchedModel>,
    runs: Seq<Option<OutputModel>>,
)
    requires
        runs.len() > 0,
        herdr_reply("workspace"@, runs[0]) is Err,
    ensures
        load_run(all, runs) matches LoadModel::Done { kept, rewrite } && kept == Map::<
            Seq<char>,
            LaunchedModel,
        >::empty() && rewrite == (all != kept),
{
    assert(kept_reviews(all, Map::empty()) =~= Map::<Seq<char>, LaunchedModel>::empty());
}

/// What is kept when launched reviews are loaded is live, and keeping it once more
/// drops nothing.
pub proof fn law_kept_stay(
    all: Map<Seq<char>, LaunchedModel>,
    live: Map<Seq<char>, Seq<char>>,
)
    ensures
        kept_reviews(kept_reviews(all, live), live) == kept_reviews(all, live),
        forall|url: Seq<char>| #[trigger]
            kept_reviews(all, live).contains_key(url) ==> is_live(all[url], live)
                && kept_reviews(all, live)[url] == all[url],
{
    assert(kept_reviews(kept_reviews(all, live), live) =~= kept_reviews(all, live));
}

/// Loading the launched reviews takes two runs at most, and once it is done further
/// runs change nothing.
pub proof fn law_load_settled(
    all: Map<Seq<char>, LaunchedModel>,
    runs: Seq<Option<OutputModel>>,
    more: Seq<Option<OutputModel>>,
)
    ensures
        runs.len() >= 2 ==> load_run(all, runs) is Done,
        load_run(all, runs) is Done ==> load_run(all, runs + more) == load_run(all, runs),
{
    let longer = runs + more;
    assert(forall|i: int| 0 <= i < runs.len() ==> longer[i] == runs[i]);
}

/// A reply of herdr is its `result`, unless it tells of an error, whose message is
/// then the reason; a run that gave no JSON is a failure too, with what herdr said of
/// it, if anything.
pub proof fn law_herdr_reply(command: Seq<char>, run: Option<OutputModel>)
    ensures
        run is None || (run matches Some(OutputModel::NotStarted(_))) ==> herdr_reply(command, run)
            is Err,
        run matches Some(OutputModel::NotStarted(reason)) ==> (herdr_reply(
            command,
            run,
        ) matches Err(told) && reason.is_suffix_of(told)),
        run matches Some(OutputModel::Ended { success, stdout, stderr }) ==> match parsed(stdout) {
            Ok(value) => {
                &&& !value.has("error"@) ==> herdr_reply(command, run) == Ok::<
                    JsonModel,
                    Seq<char>,
                >(value.at("result"@))
                &&& value.has("error"@) ==> herdr_reply(command, run) is Err
                &&& value.has("error"@) ==> (value.at("error"@).at(
                    "message"@,
                ) matches JsonModel::Text(message) ==> (herdr_reply(command, run) matches Err(told)
                    && message.is_suffix_of(told)))
            },
            Err(_) => herdr_reply(command, run) matches Err(told) && (trimmed(lossy(stderr)).len()
                > 0 ==> told == trimmed(lossy(stderr))),
        },
{
    if let Some(OutputModel::NotStarted(reason)) = run {
        let told = herdr_reply(command, run)->Err_0;
        assert(told.subrange(told.len() - reason.len(), told.len() as int) =~= reason);
    }
    if let Some(OutputModel::Ended { success, stdout, stderr }) = run {
        if let Ok(value) = parsed(stdout) {
            if value.has("error"@) {
                if let JsonModel::Text(message) = value.at("error"@).at("message"@) {
                    let told = herdr_reply(command, run)->Err_0;
                    assert(told.subrange(told.len() - message.len(), told.len() as int)
                        =~= message);
                }
            }
        }
    }
}

/// The entries of a list of workspaces.
pub open spec fn workspace_entries(list: JsonModel) -> Seq<JsonModel> {
    match list.at("workspaces"@) {
        JsonModel::Array(items) => items,
        _ => Seq::empty(),
    }
}

/// The workspace of the reviews is the first that is labelled `gh-review`.
pub proof fn law_workspace_found(list: JsonModel)
    ensures
        ({
            let items = workspace_entries(list);
            &&& forall|k: int|
                0 <= k < items.len() && (#[trigger] items[k]).at("label"@) == JsonModel::Text(
                    "gh-review"@,
                ) && (forall|i: int|
                    0 <= i < k ==> (#[trigger] items[i]).at("label"@) != JsonModel::Text(
                        "gh-review"@,
                    )) ==> match items[k].at("workspace_id"@) {
                    JsonModel::Text(id) => workspace_in(list) == Some(id),
                    _ => workspace_in(list) is None,
                }
            &&& (forall|k: int|
                0 <= k < items.len() ==> (#[trigger] items[k]).at("label"@) != JsonModel::Text(
                    "gh-review"@,
                )) ==> workspace_in(list) is None
        }),
{
    let items = workspace_entries(list);
    assert forall|k: int|
        0 <= k < items.len() && (#[trigger] items[k]).at("label"@) == JsonModel::Text("gh-review"@)
            && (forall|i: int|
            0 <= i < k ==> (#[trigger] items[i]).at("label"@) != JsonModel::Text(
                "gh-review"@,
            )) implies match items[k].at("workspace_id"@) {
        JsonModel::Text(id) => workspace_in(list) == Some(id),
        _ => workspace_in(list) is None,
    } by {
        lemma_labelled(items, k);
    }
    if forall|k: int|
        0 <= k < items.len() ==> (#[trigger] items[k]).at("label"@) != JsonModel::Text(
            "gh-review"@,
        ) {
        lemma_labelled(items, items.len() as int);
    }
}

proof fn lemma_labelled(items: Seq<JsonModel>, k: int)
    requires
        0 <= k <= items.len(),
        forall|i: int|
            0 <= i < k ==> (#[trigger] items[i]).at("label"@) != JsonModel::Text("gh-review"@),
        k < items.len() ==> items[k].at("label"@) == JsonModel::Text("gh-review"@),
    ensures
        first_labelled(items) == if k < items.len() {
            Some(items[k])
        } else {
            None
        },
    decreases items.len(),
{
    if items.len() > 0 && k > 0 {
        assert(items[0].at("label"@) != JsonModel::Text("gh-review"@));
        let rest = items.skip(1);
        assert forall|i: int| 0 <= i < k - 1 implies (#[trigger] rest[i]).at("label"@)
            != JsonModel::Text("gh-review"@) by {
            assert(rest[i] == items[i + 1]);
        }
        lemma_labelled(rest, k - 1);
    }
}

/// Whether a pane is that of a terminal with this label.
pub open spec fn shows(pane: JsonModel, id: Seq<char>, label: Seq<char>) -> bool {
    pane.at("terminal_id"@) == JsonModel::Text(id) && pane.at("label"@) == JsonModel::Text(label)
}

/// The live panes are known by their terminals: each that has an id and a label.
pub proof fn law_panes_known(panes: Seq<JsonModel>, id: Seq<char>)
    ensures
        pane_labels(panes).contains_key(id) <==> exists|i: int, label: Seq<char>|
            0 <= i < panes.len() && #[trigger] shows(panes[i], id, label),
        pane_labels(panes).contains_key(id) ==> exists|i: int|
            0 <= i < panes.len() && shows(#[trigger] panes[i], id, pane_labels(panes)[id]),
    decreases panes.len(),
{
    if panes.len() > 0 {
        let less = panes.drop_last();
        let last = panes.last();
        law_panes_known(less, id);
        let now = pane_labels(panes);
        if now.contains_key(id) {
            if last.at("terminal_id"@) == JsonModel::Text(id) && last.at("label"@) is Text {
                assert(shows(panes[panes.len() - 1], id, now[id]));
            } else {
                let i = choose|i: int|
                    0 <= i < less.len() && shows(#[trigger] less[i], id, pane_labels(less)[id]);
                assert(shows(panes[i], id, now[id]));
            }
        }
        if exists|i: int, label: Seq<char>|
            0 <= i < panes.len() && #[trigger] shows(panes[i], id, label) {
            let (i, label) = choose|i: int, label: Seq<char>|
                0 <= i < panes.len() && #[trigger] shows(panes[i], id, label);
            if i < less.len() {
                assert(shows(less[i], id, label));
            }
        }
    }
}

/// A record of a launched review is kept exactly where a live pane has its id and the
/// name of its tab; it is kept as it is, and the file is written anew only where
/// something was dropped.
pub proof fn law_kept_are_live(
    all: Map<Seq<char>, LaunchedModel>,
    runs: Seq<Option<OutputModel>>,
    panes: Seq<JsonModel>,
    url: Seq<char>,
)
    requires
        live_run(runs) == LiveModel::Done(pane_labels(panes)),
        all.contains_key(url),
    ensures
        ({
            let live = pane_labels(panes);
            let record = all[url];
            load_run(all, runs) matches LoadModel::Done { kept, rewrite } && {
                &&& kept.contains_key(url) <==> live.contains_key(record.pane_id)
                    && live[record.pane_id] == record.window_name
                &&& kept.contains_key(url) ==> kept[url] == record
                &&& rewrite <==> kept != all
                &&& kept.contains_key(url) ==> exists|i: int|
                    0 <= i < panes.len() && shows(
                        #[trigger] panes[i],
                        record.pane_id,
                        record.window_name,
                    )
            }
        }),
{
    law_panes_known(panes, all[url].pane_id);
}

/// The live reviews are asked for in two steps, the workspaces and then the panes of
/// the one of the reviews; they are the panes of that workspace, and none where herdr
/// does not answer or has no such workspace.
pub proof fn law_live_asked(runs: Seq<Option<OutputModel>>)
    ensures
        runs.len() == 0 ==> live_run(runs) == LiveModel::Run(seq!["workspace"@, "list"@]),
        runs.len() == 1 ==> match herdr_reply("workspace"@, runs[0]) {
            Ok(list) => match workspace_in(list) {
                Some(id) => live_run(runs) == LiveModel::Run(
                    seq!["pane"@, "list"@, "--workspace"@, id],
                ),
                None => live_run(runs) == LiveModel::Done(Map::empty()),
            },
            Err(_) => live_run(runs) == LiveModel::Done(Map::empty()),
        },
        runs.len() >= 2 && live_run(runs.take(1)) is Run ==> match herdr_reply("pane"@, runs[1]) {
            Ok(reply) => match reply.at("panes"@) {
                JsonModel::Array(panes) => live_run(runs) == LiveModel::Done(pane_labels(panes)),
                _ => live_run(runs) == LiveModel::Done(Map::empty()),
            },
            Err(_) => live_run(runs) == LiveModel::Done(Map::empty()),
        },
{
    if runs.len() >= 2 {
        assert(runs.take(1)[0] == runs[0]);
    }
}

/// Whether arguments start the program on a prompt, as an agent of this name in this
/// workspace and directory, without taking the focus.
pub open spec fn starts(
    args: Seq<Seq<char>>,
    name: Seq<char>,
    id: Seq<char>,
    cwd: Seq<char>,
    program: Seq<char>,
    prompt: Seq<char>,
) -> bool {
    &&& args.take(3) == seq!["agent"@, "start"@, name]
    &&& args.subrange(3, 7) == seq!["--workspace"@, id, "--cwd"@, cwd]
    &&& args.contains("--no-focus"@)
    &&& args.skip(args.len() - 3) == seq!["--"@, program, prompt]
}

/// Whether arguments move a pane to a new tab with this label in this workspace.
pub open spec fn opens_tab(args: Seq<Seq<char>>, id: Seq<char>, name: Seq<char>) -> bool {
    &&& args.take(2) == seq!["pane"@, "move"@]
    &&& args.contains("--new-tab"@)
    &&& args.subrange(4, 8) == seq!["--workspace"@, id, "--label"@, name]
}

/// A launch goes step by step: the workspace of the reviews is looked for, and made
/// where it is missing; then the program is started there on the address of the pull
/// request, and its pane is moved to a tab of its own. A finished launch has the id of
/// the terminal that herdr told of at the start, and the name of the tab, which is the
/// last part of what the pull request is called.
pub proof fn law_launch_steps(
    pr_url: Seq<char>,
    pr_key: Seq<char>,
    cwd: Seq<char>,
    program: Seq<char>,
    runs: Seq<Option<OutputModel>>,
)
    requires
        runs.len() > 0,
        launch_run(pr_url, pr_key, cwd, program, runs) is Done,
        launch_run(pr_url, pr_key, cwd, program, runs.drop_last()) is Run,
    ensures
        ({
            let n = runs.len() as int;
            let record = launch_run(pr_url, pr_key, cwd, program, runs)->Done_0;
            let start = launch_run(pr_url, pr_key, cwd, program, runs.take(n - 2));
            let tab = launch_run(pr_url, pr_key, cwd, program, runs.take(n - 1));
            let name = record.window_name;
            &&& name.is_suffix_of(pr_key) && !name.contains('/')
            &&& name.len() < pr_key.len() ==> pr_key[pr_key.len() - name.len() - 1] == '/'
            &&& 3 <= n <= 4
            &&& herdr_reply("pane"@, runs[n - 1]) is Ok
            &&& herdr_reply("agent"@, runs[n - 2]) matches Ok(reply) && reply.at("agent"@).at(
                "terminal_id"@,
            ) == JsonModel::Text(record.pane_id)
            &&& exists|id: Seq<char>|
                {
                    &&& #[trigger] starts(start->Run_0, name, id, cwd, program, pr_url)
                    &&& n == 3 ==> (herdr_reply("workspace"@, runs[0]) matches Ok(list)
                        && workspace_in(list) == Some(id))
                    &&& n == 4 ==> (herdr_reply("workspace"@, runs[1]) matches Ok(made) && made.at(
                        "workspace"@,
                    ).at("workspace_id"@) == JsonModel::Text(id))
                    &&& opens_tab(tab->Run_0, id, name)
                    &&& JsonModel::Text(tab->Run_0[2]) == herdr_reply("agent"@, runs[n - 2])->Ok_0.at(
                        "agent"@,
                    ).at("pane_id"@)
                }
            &&& start is Run && tab is Run
        }),
{
    let n = runs.len() as int;
    let less = runs.drop_last();
    assert(less =~= runs.take(n - 1));
    assert(n >= 1);
    let name = after_last(pr_key, '/');
    crate::text::lemma_after_last(pr_key, '/');
    let at = pr_key.len() - name.len();
    assert(pr_key.subrange(at, pr_key.len() as int) =~= pr_key.skip(at));
    let known = workspace_run(cwd, runs);
    assert(known is Known);
    let used = known->used;
    let id = known->id;
    assert(runs.len() > used + 1);
    assert(workspace_run(cwd, runs.take(used + 1)) == known) by {
        assert(runs.take(used + 1)[0] == runs[0]);
        if used == 2 {
            assert(runs.take(used + 1)[1] == runs[1]);
        }
    }
    assert(n == used + 2) by {
        if n > used + 2 {
            assert(less[0] == runs[0]);
            assert(less[1] == runs[1]);
            assert(less[used] == runs[used]);
            assert(less[used + 1] == runs[used + 1]);
            assert(workspace_run(cwd, less) == known);
        }
    }
    let front = runs.take(n - 2);
    assert(workspace_run(cwd, front) == known) by {
        assert(front[0] == runs[0]);
        if used == 2 {
            assert(front[1] == runs[1]);
        }
    }
    let args = start_args(name, id, cwd, program, pr_url);
    assert(launch_run(pr_url, pr_key, cwd, program, front) == LaunchModel::Run(args));
    assert(args.take(3) =~= seq!["agent"@, "start"@, name]);
    assert(args.subrange(3, 7) =~= seq!["--workspace"@, id, "--cwd"@, cwd]);
    assert(args[7] == "--no-focus"@);
    assert(args.skip(args.len() - 3) =~= seq!["--"@, program, pr_url]);
    assert(starts(args, name, id, cwd, program, pr_url));
    let second = runs.take(n - 1);
    assert(second[used] == runs[used]);
    let moved = launch_run(pr_url, pr_key, cwd, program, second)->Run_0;
    assert(second =~= less);
    assert(workspace_run(cwd, second) == known) by {
        assert(second[0] == runs[0]);
        assert(second[1] == runs[1]);
    }
    let reply = herdr_reply("agent"@, runs[used])->Ok_0;
    let pane = reply.at("agent"@).at("pane_id"@).text_or_empty();
    assert(launch_run(pr_url, pr_key, cwd, program, second) == LaunchModel::Run(
        move_args(pane, id, name),
    ));
    assert(moved == move_args(pane, id, name));
    assert(moved[3] == "--new-tab"@);
    assert(moved[2] == pane);
    assert(JsonModel::Text(pane) == reply.at("agent"@).at("pane_id"@));
    assert(moved.take(2) =~= seq!["pane"@, "move"@]);
    assert(moved.subrange(4, 8) =~= seq!["--workspace"@, id, "--label"@, name]);
    assert(opens_tab(moved, id, name));
    let record = launch_run(pr_url, pr_key, cwd, program, runs)->Done_0;
    assert(record.window_name == name);
    assert(reply.at("agent"@).at("terminal_id"@) == JsonModel::Text(record.pane_id));
    assert(herdr_reply("pane"@, runs[n - 1]) is Ok);
    assert(n == 3 || n == 4);
    if n == 4 {
        assert(herdr_reply("workspace"@, runs[1])->Ok_0.at("workspace"@).at("workspace_id"@)
            == JsonModel::Text(id));
    } else {
        assert(workspace_in(herdr_reply("workspace"@, runs[0])->Ok_0) == Some(id));
    }
    let start = launch_run(pr_url, pr_key, cwd, program, runs.take(n - 2));
    assert(starts(start->Run_0, record.window_name, id, cwd, program, pr_url));
}

/// Where herdr has no workspace of the reviews, one is made, with its label and in the
/// working directory, without taking the focus; where it has one, none is made.
pub proof fn law_workspace_made(cwd: Seq<char>, runs: Seq<Option<OutputModel>>)
    ensures
        runs.len() == 0 ==> workspace_run(cwd, runs) == WorkspaceModel::Run(
            seq!["workspace"@, "list"@],
        ),
        runs.len() > 0 ==> match herdr_reply("workspace"@, runs[0]) {
            Err(reason) => workspace_run(cwd, runs) == WorkspaceModel::Failed(reason),
            Ok(list) => match workspace_in(list) {
                Some(id) => workspace_run(cwd, runs) == (WorkspaceModel::Known { id, used: 1 }),
                None => runs.len() == 1 ==> (workspace_run(cwd, runs) matches WorkspaceModel::Run(
                    args,
                ) && args.take(2) == seq!["workspace"@, "create"@] && args.subrange(2, 4)
                    == seq!["--label"@, "gh-review"@] && args.contains("--no-focus"@)
                    && args.skip(args.len() - 2) == seq!["--cwd"@, cwd]),
            },
        },
{
    let args = create_args(cwd);
    assert(args.take(2) =~= seq!["workspace"@, "create"@]);
    assert(args.subrange(2, 4) =~= seq!["--label"@, "gh-review"@]);
    assert(args[4] == "--no-focus"@);
    assert(args.skip(args.len() - 2) =~= seq!["--cwd"@, cwd]);
}

/// Where no launched review is on record, herdr is not asked, and nothing is written.
pub proof fn law_nothing_to_load(runs: Seq<Option<OutputModel>>)
    ensures
        load_run(Map::empty(), runs) == (LoadModel::Done { kept: Map::empty(), rewrite: false }),
{
}

} // verus!
