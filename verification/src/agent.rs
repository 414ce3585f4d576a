//! The AI command that reviews pull requests.
//!
//! One interactive AI run per pull request, so each run is visible (and
//! continuable) exactly like normal terminal usage. Runs are hosted by herdr, one
//! tab per PR in a dedicated workspace. A headless variant (JSON output, saved
//! report) stands beside it. What the programs gave is told by the caller.
use vstd::prelude::*;

use crate::config::{settings_file, workspace_dir};
use crate::gh::reply_in;
use crate::herdr::{
    find_herdr, herdr_places, launch_in_herdr, launch_run, run_models, LaunchModel, LaunchStep,
};
use crate::json::{parse_json, parsed, text_in, Json, JsonModel};
use crate::process::{arguments, lossy, output_models, text_of, Output, OutputModel};
use crate::quote::{safe_stem, sanitize_file_stem, sh_quote, sh_quoted};
use crate::records::{AiSessionRecord, LaunchedModel, LaunchedRecord, SessionModel};
use crate::resolve::{below, first_present, join_path, resolve_in, resolved};
use crate::terminal::{
    ghostty_app, ghostty_places, open_shell_in_terminal, pids_of, raise_run, shell_opening, show_run,
    show_terminal, Opening, ShowModel, ShowStep,
};
use crate::text::{cat, cat3, join, joined, texts, trim, trimmed};

verus! {

/// The AI command: its name, and the title that messages give it.
pub struct Tool {
    pub name: String,
    pub title: String,
}

/// What the AI command is called.
#[verifier::ext_equal]
pub struct ToolModel {
    pub name: Seq<char>,
    pub title: Seq<char>,
}

impl View for Tool {
    type V = ToolModel;

    open spec fn view(&self) -> ToolModel {
        ToolModel { name: self.name@, title: self.title@ }
    }
}

/// The directory below a home directory that the AI command installs itself in.
pub open spec fn local_dir(home: Seq<char>, name: Seq<char>) -> Seq<char> {
    below(home, "."@ + name + "/local"@)
}

/// Locations commonly holding the binary.
pub open spec fn claude_places(home: Option<Seq<char>>, name: Seq<char>) -> Seq<Seq<char>> {
    let rest = seq!["/opt/homebrew/bin/"@ + name, "/usr/local/bin/"@ + name];
    match home {
        Some(home) => seq![
            below(home, ".local/bin/"@ + name),
            local_dir(home, name) + "/"@ + name,
        ] + rest,
        None => rest,
    }
}

fn own_dir(home: &str, name: &str) -> (r: String)
    ensures
        r@ == local_dir(home@, name@),
{
    join_path(home, cat3(".", name, "/local").as_str())
}

/// Locations commonly holding the binary. Home-relative entries are expanded at
/// runtime; a GUI launch (Dock / Spotlight) has a minimal PATH.
pub fn claude_candidates(home: &Option<String>, name: &str) -> (r: Vec<String>)
    ensures
        texts(r@) == claude_places(text_in(*home), name@),
{
    let brew = cat("/opt/homebrew/bin/", name);
    let usual = cat("/usr/local/bin/", name);
    match home {
        Some(home) => {
            let own = join_path(home.as_str(), cat(".local/bin/", name).as_str());
            let local = cat3(own_dir(home.as_str(), name).as_str(), "/", name);
            let r = arguments(&[own.as_str(), local.as_str(), brew.as_str(), usual.as_str()]);
            assert(texts(r@) =~= claude_places(Some(home@), name@));
            r
        },
        None => {
            let r = arguments(&[brew.as_str(), usual.as_str()]);
            assert(texts(r@) =~= claude_places(None, name@));
            r
        },
    }
}

/// Resolve the binary. `existing` lists the paths that exist.
pub fn resolve_claude(
    preferred: &str,
    home: &Option<String>,
    name: &str,
    existing: &Vec<String>,
) -> (r: String)
    ensures
        r@ == resolved(preferred@, claude_places(text_in(*home), name@), texts(existing@)),
{
    resolve_claude_in(preferred, &claude_candidates(home, name), existing)
}

/// Resolve the binary among `candidates`. An explicit path that exists wins.
pub fn resolve_claude_in(preferred: &str, candidates: &Vec<String>, existing: &Vec<String>) -> (r:
    String)
    ensures
        r@ == resolved(preferred@, texts(candidates@), texts(existing@)),
{
    resolve_in(preferred, candidates, existing)
}

/// The bin dirs that PATH is augmented with.
pub open spec fn bin_dirs(home: Option<Seq<char>>, name: Seq<char>) -> Seq<Seq<char>> {
    let rest = seq!["/opt/homebrew/bin"@, "/usr/local/bin"@, "/usr/bin"@, "/bin"@];
    match home {
        Some(home) => seq![below(home, ".local/bin"@), local_dir(home, name)] + rest,
        None => rest,
    }
}

/// PATH augmented with the common bin dirs, for tools that the AI itself spawns.
/// Needed because a `.app` launch inherits a minimal PATH.
pub fn augmented_path(home: &Option<String>, name: &str, existing: &str) -> (r: String)
    ensures
        r@ == joined(bin_dirs(text_in(*home), name@), ":"@) + ":"@ + existing@,
{
    let dirs = match home {
        Some(home) => {
            let own = join_path(home.as_str(), ".local/bin");
            let local = own_dir(home.as_str(), name);
            arguments(
                &[
                    own.as_str(),
                    local.as_str(),
                    "/opt/homebrew/bin",
                    "/usr/local/bin",
                    "/usr/bin",
                    "/bin",
                ],
            )
        },
        None => arguments(&["/opt/homebrew/bin", "/usr/local/bin", "/usr/bin", "/bin"]),
    };
    assert(texts(dirs@) =~= bin_dirs(text_in(*home), name@));
    cat3(join(&dirs, ":").as_str(), ":", existing)
}

/// Tools pre-approved for the headless review run. That mode cannot answer
/// permission prompts (anything not allowed is auto-denied), so everything the
/// review skill and its subagents use must be listed here.
pub const REVIEW_ALLOWED_TOOLS: &'static str = "Bash,Glob,Grep,Read,Agent,Task,TodoWrite,Skill";

/// The prompt sent to the AI for one PR: the PR URL itself.
pub fn review_prompt(pr_url: &str) -> (r: String)
    ensures
        r@ == pr_url@,
{
    pr_url.to_owned()
}

/// The session id and the report in the response of a headless run, or the reason
/// why there are none.
pub open spec fn run_output(value: JsonModel, name: Seq<char>) -> Result<(Seq<char>, Seq<char>), Seq<char>> {
    if value.at("is_error"@).is_true() {
        if trimmed(value.at("result"@).text_or_empty()).len() > 0 {
            Err(value.at("result"@).text_or_empty())
        } else {
            Err(
                name + " の実行がエラーになりました（subtype: "@ + (match value.at(
                    "subtype"@,
                ).text() {
                    Some(subtype) => subtype,
                    None => "unknown"@,
                }) + "）"@,
            )
        }
    } else if value.at("session_id"@).text_or_empty().len() == 0 {
        Err(name + " の応答から session_id を取得できませんでした。"@)
    } else {
        Ok((value.at("session_id"@).text_or_empty(), value.at("result"@).text_or_empty()))
    }
}

/// Extract `(session_id, result_text)` from the JSON response of a headless run. An
/// `is_error` response surfaces its message as the error.
pub fn parse_run_output(value: &Json, name: &str) -> (r: Result<(String, String), String>)
    ensures
        match r {
            Ok(parts) => run_output(value@, name@) == Ok::<(Seq<char>, Seq<char>), Seq<char>>(
                (parts.0@, parts.1@),
            ),
            Err(reason) => run_output(value@, name@) == Err::<(Seq<char>, Seq<char>), Seq<char>>(reason@),
        },
{
    let result = value.text_or_empty_at("result");
    if value.true_at("is_error") {
        if !trim(result.as_str()).as_str().is_empty() {
            return Err(result);
        }
        let subtype = match value.text_at("subtype") {
            Some(subtype) => subtype,
            None => "unknown".to_owned(),
        };
        return Err(
            cat3(
                cat(name, " の実行がエラーになりました（subtype: ").as_str(),
                subtype.as_str(),
                "）",
            ),
        );
    }
    let session_id = value.text_or_empty_at("session_id");
    if session_id.as_str().is_empty() {
        return Err(cat(name, " の応答から session_id を取得できませんでした。"));
    }
    Ok((session_id, result))
}

/// The response of a headless run: the JSON value it printed, or the reason why
/// there is none.
pub open spec fn run_reply(output: OutputModel, tool: ToolModel) -> Result<JsonModel, Seq<char>> {
    match output {
        OutputModel::NotStarted(reason) => Err(
            tool.title + " `"@ + tool.name + "` を実行できませんでした: "@ + reason,
        ),
        OutputModel::Ended { success, stdout, stderr } => match parsed(stdout) {
            Ok(value) => Ok(value),
            Err(_) => if trimmed(lossy(stderr)).len() == 0 {
                Err("`"@ + tool.name + "` がJSON応答を返しませんでした。"@)
            } else {
                Err(trimmed(lossy(stderr)))
            },
        },
    }
}

/// The response of a headless run.
pub fn read_run(output: &Output, tool: &Tool) -> (r: Result<Json, String>)
    ensures
        reply_in(r) == run_reply(output@, tool@),
{
    match output {
        Output::NotStarted(reason) => Err(
            cat3(
                cat3(tool.title.as_str(), " `", tool.name.as_str()).as_str(),
                "` を実行できませんでした: ",
                reason.as_str(),
            ),
        ),
        Output::Ended { success: _, stdout, stderr } => match parse_json(stdout.as_slice()) {
            Ok(value) => Ok(value),
            Err(_) => {
                let reason = trim(text_of(stderr.as_slice()).as_str());
                if reason.as_str().is_empty() {
                    Err(cat3("`", tool.name.as_str(), "` がJSON応答を返しませんでした。"))
                } else {
                    Err(reason)
                }
            },
        },
    }
}

/// What is reported where there is no home directory.
pub const NO_HOME: &'static str = "HOME が取得できず作業ディレクトリを決められませんでした。";

/// How saving the report of a headless run ended: the reason why it failed, if it
/// did, and the time.
pub struct Finish {
    pub failure: Option<String>,
    pub at: String,
}

/// How saving the report of a headless run ended.
#[verifier::ext_equal]
pub struct FinishModel {
    pub failure: Option<Seq<char>>,
    pub at: Seq<char>,
}

impl View for Finish {
    type V = FinishModel;

    open spec fn view(&self) -> FinishModel {
        FinishModel { failure: text_in(self.failure), at: self.at@ }
    }
}

/// What a headless review comes to: a program to run in the workspace, whose
/// directory for reports has to be there; a report to save, if any; the record of
/// the finished review; or a failure.
pub enum ReviewStep {
    Run { program: String, args: Vec<String>, workspace: String, reviews: String },
    Save { path: Option<String>, report: String },
    Done(AiSessionRecord),
    Failed(String),
}

/// What a headless review comes to.
#[verifier::ext_equal]
pub enum ReviewRunModel {
    Run { program: Seq<char>, args: Seq<Seq<char>>, workspace: Seq<char>, reviews: Seq<char> },
    Save { path: Option<Seq<char>>, report: Seq<char> },
    Done(SessionModel),
    Failed(Seq<char>),
}

impl View for ReviewStep {
    type V = ReviewRunModel;

    open spec fn view(&self) -> ReviewRunModel {
        match self {
            ReviewStep::Run { program, args, workspace, reviews } => ReviewRunModel::Run {
                program: program@,
                args: texts(args@),
                workspace: workspace@,
                reviews: reviews@,
            },
            ReviewStep::Save { path, report } => ReviewRunModel::Save {
                path: text_in(*path),
                report: report@,
            },
            ReviewStep::Done(record) => ReviewRunModel::Done(record@),
            ReviewStep::Failed(reason) => ReviewRunModel::Failed(reason@),
        }
    }
}

/// The arguments of a headless review.
pub open spec fn review_args(pr_url: Seq<char>) -> Seq<Seq<char>> {
    seq!["-p"@, pr_url, "--output-format"@, "json"@, "--allowedTools"@, REVIEW_ALLOWED_TOOLS@]
}

/// Where the report of a PR is saved; nowhere where it holds no text.
pub open spec fn report_path(
    reviews: Seq<char>,
    pr_key: Seq<char>,
    report: Seq<char>,
) -> Option<Seq<char>> {
    if trimmed(report).len() == 0 {
        None
    } else {
        Some(below(reviews, safe_stem(pr_key) + ".md"@))
    }
}

/// A headless review in a workspace, given the output of the run and how saving the
/// report ended, as far as known.
pub open spec fn review_run(
    tool: ToolModel,
    program: Seq<char>,
    workspace: Seq<char>,
    pr_url: Seq<char>,
    pr_key: Seq<char>,
    output: Option<OutputModel>,
    finish: Option<FinishModel>,
) -> ReviewRunModel {
    let reviews = below(workspace, "reviews"@);
    match output {
        None => ReviewRunModel::Run { program, args: review_args(pr_url), workspace, reviews },
        Some(output) => match run_reply(output, tool) {
            Err(reason) => ReviewRunModel::Failed(reason),
            Ok(value) => match run_output(value, tool.name) {
                Err(reason) => ReviewRunModel::Failed(reason),
                Ok(parts) => {
                    let path = report_path(reviews, pr_key, parts.1);
                    match finish {
                        None => ReviewRunModel::Save { path, report: parts.1 },
                        Some(finish) => match (path, finish.failure) {
                            (Some(_), Some(reason)) => ReviewRunModel::Failed(
                                "レビュー結果を保存できませんでした: "@ + reason,
                            ),
                            _ => ReviewRunModel::Done(
                                SessionModel {
                                    session_id: parts.0,
                                    completed_at: finish.at,
                                    report_path: path,
                                },
                            ),
                        },
                    }
                },
            },
        },
    }
}

/// What is known of an optional output.
pub open spec fn output_model(output: Option<Output>) -> Option<OutputModel> {
    match output {
        Some(output) => Some(output@),
        None => None,
    }
}

/// What is known of an optional end.
pub open spec fn finish_model(finish: Option<Finish>) -> Option<FinishModel> {
    match finish {
        Some(finish) => Some(finish@),
        None => None,
    }
}

/// What focusing a review comes to: a best-effort run of herdr, then the steps of
/// showing its client.
pub enum FocusStep {
    Focus(Vec<String>),
    Show(ShowStep),
}

/// What focusing a review comes to.
#[verifier::ext_equal]
pub enum FocusModel {
    Focus(Seq<Seq<char>>),
    Show(ShowModel),
}

impl View for FocusStep {
    type V = FocusModel;

    open spec fn view(&self) -> FocusModel {
        match self {
            FocusStep::Focus(args) => FocusModel::Focus(texts(args@)),
            FocusStep::Show(step) => FocusModel::Show(step@),
        }
    }
}

/// The arguments that switch herdr to the tab of a run.
pub open spec fn focus_args(record: LaunchedModel) -> Seq<Seq<char>> {
    seq!["agent"@, "focus"@, record.pane_id]
}

/// The next step towards the tab of a run: herdr is asked for it, then the client is
/// shown, and a new one opened where none is found.
pub open spec fn focus_step(
    record: LaunchedModel,
    focused: bool,
    home: Option<Seq<char>>,
    existing: Seq<Seq<char>>,
    outputs: Seq<OutputModel>,
) -> FocusModel {
    if focused {
        FocusModel::Show(client_shown(false, home, existing, outputs))
    } else {
        FocusModel::Focus(focus_args(record))
    }
}

/// Showing the herdr client, given which paths exist.
pub open spec fn client_shown(
    keep_existing: bool,
    home: Option<Seq<char>>,
    existing: Seq<Seq<char>>,
    outputs: Seq<OutputModel>,
) -> ShowModel {
    show_run(
        keep_existing,
        first_present(herdr_places(home), existing),
        first_present(ghostty_places(home), existing),
        outputs,
    )
}

/// The shell command that resumes a session: it changes into the workspace first,
/// because sessions are looked up per project directory.
pub open spec fn resume_shell(
    workspace: Seq<char>,
    program: Seq<char>,
    session_id: Seq<char>,
) -> Seq<char> {
    "cd "@ + sh_quoted(workspace) + " && "@ + sh_quoted(program) + " --resume "@ + sh_quoted(
        session_id,
    )
}

/// The next step of an interactive run, which takes place in the workspace.
pub open spec fn launch_step(
    preferred: Seq<char>,
    pr_url: Seq<char>,
    pr_key: Seq<char>,
    home: Option<Seq<char>>,
    name: Seq<char>,
    existing: Seq<Seq<char>>,
    runs: Seq<Option<OutputModel>>,
) -> LaunchModel {
    match settings_file(home, "workspace"@) {
        Some(cwd) => launch_run(
            pr_url,
            pr_key,
            cwd,
            resolved(preferred, claude_places(home, name), existing),
            runs,
        ),
        None => LaunchModel::Failed(NO_HOME@),
    }
}

/// The next step of a headless review, which takes place in the workspace.
pub open spec fn review_step(
    preferred: Seq<char>,
    pr_url: Seq<char>,
    pr_key: Seq<char>,
    home: Option<Seq<char>>,
    tool: ToolModel,
    existing: Seq<Seq<char>>,
    output: Option<OutputModel>,
    finish: Option<FinishModel>,
) -> ReviewRunModel {
    match settings_file(home, "workspace"@) {
        Some(cwd) => review_run(
            tool,
            resolved(preferred, claude_places(home, tool.name), existing),
            cwd,
            pr_url,
            pr_key,
            output,
            finish,
        ),
        None => ReviewRunModel::Failed(NO_HOME@),
    }
}

/// The shell command that resumes a session in the workspace.
pub open spec fn resume_line(
    preferred: Seq<char>,
    session_id: Seq<char>,
    home: Option<Seq<char>>,
    name: Seq<char>,
    existing: Seq<Seq<char>>,
) -> Option<Seq<char>> {
    match settings_file(home, "workspace"@) {
        Some(cwd) => Some(
            resume_shell(cwd, resolved(preferred, claude_places(home, name), existing), session_id),
        ),
        None => None,
    }
}

/// Thin wrapper around the CLI.
pub struct ClaudeClient {
    pub claude_path: String,
}

impl ClaudeClient {
    /// A client for the binary at the given path or of the given name.
    pub fn new(claude_path: String) -> (r: ClaudeClient)
        ensures
            r.claude_path == claude_path,
    {
        ClaudeClient { claude_path }
    }

    /// The program to run for this client, given which paths exist.
    pub fn program(&self, home: &Option<String>, tool: &Tool, existing: &Vec<String>) -> (r: String)
        ensures
            r@ == resolved(
                self.claude_path@,
                claude_places(text_in(*home), tool@.name),
                texts(existing@),
            ),
    {
        resolve_claude(self.claude_path.as_str(), home, tool.name.as_str(), existing)
    }

    /// Start an interactive AI run for one PR as a herdr agent in the dedicated
    /// review workspace, moved into its own labeled tab (one tab per PR). The
    /// workspace directory has to be there before the first run. The review itself
    /// keeps running in its tab.
    pub fn launch_review(
        &self,
        pr_url: &str,
        pr_key: &str,
        home: &Option<String>,
        tool: &Tool,
        existing: &Vec<String>,
        runs: &Vec<Option<Output>>,
    ) -> (r: LaunchStep)
        ensures
            r@ == (match settings_file(text_in(*home), "workspace"@) {
                Some(cwd) => launch_run(
                    pr_url@,
                    pr_key@,
                    cwd,
                    resolved(
                        self.claude_path@,
                        claude_places(text_in(*home), tool@.name),
                        texts(existing@),
                    ),
                    run_models(runs@),
                ),
                None => LaunchModel::Failed(NO_HOME@),
            }),
            r@ == launch_step(
                self.claude_path@,
                pr_url@,
                pr_key@,
                text_in(*home),
                tool@.name,
                texts(existing@),
                run_models(runs@),
            ),
    {
        match workspace_dir(home) {
            Some(cwd) => {
                let program = self.program(home, tool, existing);
                let prompt = review_prompt(pr_url);
                launch_in_herdr(prompt.as_str(), pr_key, cwd.as_str(), program.as_str(), runs)
            },
            None => LaunchStep::Failed(NO_HOME.to_owned()),
        }
    }

    /// Switch herdr to the tab of this run, then bring the terminal to the front
    /// (or open one). Selecting the tab is best effort: it fails when the pane is
    /// gone, in which case the workspace is shown as-is. `focused` says whether
    /// herdr was asked already.
    pub fn focus_review_window(
        &self,
        record: &LaunchedRecord,
        focused: bool,
        home: &Option<String>,
        existing: &Vec<String>,
        outputs: &Vec<Output>,
    ) -> (r: FocusStep)
        ensures
            r@ == (if focused {
                FocusModel::Show(
                    client_shown(false, text_in(*home), texts(existing@), output_models(outputs@)),
                )
            } else {
                FocusModel::Focus(focus_args(record@))
            }),
            r@ == focus_step(
                record@,
                focused,
                text_in(*home),
                texts(existing@),
                output_models(outputs@),
            ),
    {
        if focused {
            return FocusStep::Show(self.show_review_terminal(false, home, existing, outputs));
        }
        let args = arguments(&["agent", "focus", record.pane_id.as_str()]);
        assert(texts(args@) =~= focus_args(record@));
        FocusStep::Focus(args)
    }

    /// Show the herdr client in a terminal: raise the window hosting an attached
    /// client when there is one, otherwise open a terminal running `herdr` (which
    /// attaches to the persistent session). With `keep_existing`, an attached client
    /// that cannot be raised (e.g. it lives in an unknown terminal app) is left
    /// alone instead of opening a second, mirroring client; used right after
    /// launching reviews.
    pub fn show_review_terminal(
        &self,
        keep_existing: bool,
        home: &Option<String>,
        existing: &Vec<String>,
        outputs: &Vec<Output>,
    ) -> (r: ShowStep)
        ensures
            r@ == client_shown(
                keep_existing,
                text_in(*home),
                texts(existing@),
                output_models(outputs@),
            ),
    {
        show_terminal(
            keep_existing,
            &find_herdr(home, existing),
            &ghostty_app(home, existing),
            outputs,
        )
    }

    /// Run the review headlessly. The final report text is saved as
    /// `<workspace>/reviews/<pr_key>.md`, where there is any.
    pub fn run_review(
        &self,
        pr_url: &str,
        pr_key: &str,
        home: &Option<String>,
        tool: &Tool,
        existing: &Vec<String>,
        output: &Option<Output>,
        finish: &Option<Finish>,
    ) -> (r: ReviewStep)
        ensures
            r@ == (match settings_file(text_in(*home), "workspace"@) {
                Some(workspace) => review_run(
                    tool@,
                    resolved(
                        self.claude_path@,
                        claude_places(text_in(*home), tool@.name),
                        texts(existing@),
                    ),
                    workspace,
                    pr_url@,
                    pr_key@,
                    output_model(*output),
                    finish_model(*finish),
                ),
                None => ReviewRunModel::Failed(NO_HOME@),
            }),
            r@ == review_step(
                self.claude_path@,
                pr_url@,
                pr_key@,
                text_in(*home),
                tool@,
                texts(existing@),
                output_model(*output),
                finish_model(*finish),
            ),
    {
        let workspace = match workspace_dir(home) {
            Some(workspace) => workspace,
            None => return ReviewStep::Failed(NO_HOME.to_owned()),
        };
        let reviews = join_path(workspace.as_str(), "reviews");
        let output = match output {
            Some(output) => output,
            None => {
                let program = self.program(home, tool, existing);
                let prompt = review_prompt(pr_url);
                let args = arguments(
                    &[
                        "-p",
                        prompt.as_str(),
                        "--output-format",
                        "json",
                        "--allowedTools",
                        REVIEW_ALLOWED_TOOLS,
                    ],
                );
                assert(texts(args@) =~= review_args(pr_url@));
                return ReviewStep::Run { program, args, workspace, reviews };
            },
        };
        let value = match read_run(output, tool) {
            Ok(value) => value,
            Err(reason) => return ReviewStep::Failed(reason),
        };
        let (session_id, report) = match parse_run_output(&value, tool.name.as_str()) {
            Ok(parts) => parts,
            Err(reason) => return ReviewStep::Failed(reason),
        };
        let path: Option<String> = if trim(report.as_str()).as_str().is_empty() {
            None
        } else {
            let name = cat(sanitize_file_stem(pr_key).as_str(), ".md");
            Some(join_path(reviews.as_str(), name.as_str()))
        };
        match finish {
            None => ReviewStep::Save { path, report },
            Some(finish) => match (&path, &finish.failure) {
                (Some(_), Some(reason)) => ReviewStep::Failed(
                    cat("レビュー結果を保存できませんでした: ", reason.as_str()),
                ),
                _ => ReviewStep::Done(
                    AiSessionRecord {
                        session_id,
                        completed_at: finish.at.clone(),
                        report_path: path,
                    },
                ),
            },
        }
    }

    /// Open a terminal and resume the review session interactively.
    pub fn open_resume_terminal(
        &self,
        session_id: &str,
        home: &Option<String>,
        tool: &Tool,
        existing: &Vec<String>,
    ) -> (r: Result<Opening, String>)
        ensures
            match (r, settings_file(text_in(*home), "workspace"@)) {
                (Ok(opening), Some(workspace)) => opening@ == shell_opening(
                    first_present(ghostty_places(text_in(*home)), texts(existing@)),
                    resume_shell(
                        workspace,
                        resolved(
                            self.claude_path@,
                            claude_places(text_in(*home), tool@.name),
                            texts(existing@),
                        ),
                        session_id@,
                    ),
                ),
                (Err(reason), None) => reason@ == NO_HOME@,
                _ => false,
            },
            r is Ok <==> resume_line(
                self.claude_path@,
                session_id@,
                text_in(*home),
                tool@.name,
                texts(existing@),
            ) is Some,
            r is Ok ==> r->Ok_0@ == shell_opening(
                first_present(ghostty_places(text_in(*home)), texts(existing@)),
                resume_line(
                    self.claude_path@,
                    session_id@,
                    text_in(*home),
                    tool@.name,
                    texts(existing@),
                )->0,
            ),
    {
        match workspace_dir(home) {
            Some(workspace) => {
                let program = self.program(home, tool, existing);
                let place = cat("cd ", sh_quote(workspace.as_str()).as_str());
                let command = cat3(place.as_str(), " && ", sh_quote(program.as_str()).as_str());
                let shell = cat3(command.as_str(), " --resume ", sh_quote(session_id).as_str());
                Ok(open_shell_in_terminal(&ghostty_app(home, existing), shell.as_str()))
            },
            None => Err(NO_HOME.to_owned()),
        }
    }
}

/// A finished headless review has a session id, so that its record is kept on disk,
/// and names a report exactly where the run produced text.
pub proof fn law_finished_review(
    tool: ToolModel,
    program: Seq<char>,
    workspace: Seq<char>,
    pr_url: Seq<char>,
    pr_key: Seq<char>,
    output: OutputModel,
    finish: FinishModel,
)
    requires
        review_run(tool, program, workspace, pr_url, pr_key, Some(output), Some(finish)) is Done,
    ensures
        ({
            let record = review_run(
                tool,
                program,
                workspace,
                pr_url,
                pr_key,
                Some(output),
                Some(finish),
            )->Done_0;
            &&& record.session_id.len() > 0
            &&& record.completed_at == finish.at
            &&& review_run(tool, program, workspace, pr_url, pr_key, Some(output), None)
                == (ReviewRunModel::Save {
                path: record.report_path,
                report: run_reply(output, tool)->Ok_0.at("result"@).text_or_empty(),
            })
        }),
{
}

/// The report of a later review of the same PR is saved in place of the earlier one.
pub proof fn law_report_replaced(
    reviews: Seq<char>,
    pr_key: Seq<char>,
    report: Seq<char>,
    later: Seq<char>,
)
    requires
        trimmed(report).len() > 0,
        trimmed(later).len() > 0,
    ensures
        report_path(reviews, pr_key, later) == report_path(reviews, pr_key, report),
        report_path(reviews, pr_key, report) is Some,
{
}

/// A run that replied was successful where it does not tell of an error and has a
/// session id; it gives that id and the text of the result. An error is told by the
/// text of the result, where there is one.
pub proof fn law_run_output(value: JsonModel, name: Seq<char>, id: Seq<char>, text: Seq<char>)
    ensures
        run_output(value, name) == Ok::<(Seq<char>, Seq<char>), Seq<char>>((id, text)) <==> {
            &&& value.at("is_error"@) != JsonModel::Bool(true)
            &&& value.at("session_id"@) == JsonModel::Text(id)
            &&& id.len() > 0
            &&& match value.at("result"@) {
                JsonModel::Text(t) => text == t,
                _ => text == Seq::<char>::empty(),
            }
        },
        value.at("is_error"@) == JsonModel::Bool(true) ==> run_output(value, name) is Err,
        value.at("is_error"@) == JsonModel::Bool(true) ==> (value.at(
            "result"@,
        ) matches JsonModel::Text(t) ==> (trimmed(t).len() > 0 ==> run_output(value, name) == Err::<
            (Seq<char>, Seq<char>),
            Seq<char>,
        >(t))),
{
}

/// What a run printed is its reply, where it is JSON, whether it was successful or
/// not; otherwise what it said of the failure is the reason, unless that is nothing.
pub proof fn law_run_reply(output: OutputModel, tool: ToolModel)
    ensures
        match output {
            OutputModel::NotStarted(reason) => run_reply(output, tool) matches Err(told)
                && reason.is_suffix_of(told),
            OutputModel::Ended { success, stdout, stderr } => match parsed(stdout) {
                Ok(value) => run_reply(output, tool) == Ok::<JsonModel, Seq<char>>(value),
                Err(_) => run_reply(output, tool) matches Err(told) && (trimmed(lossy(stderr)).len()
                    > 0 ==> told == trimmed(lossy(stderr))),
            },
        },
{
    if let OutputModel::NotStarted(reason) = output {
        let told = run_reply(output, tool)->Err_0;
        assert(told.subrange(told.len() - reason.len(), told.len() as int) =~= reason);
    }
}

/// A headless review runs the program on the address of the pull request and asks for
/// JSON; its report, unless it is blank, is saved as Markdown under the name of the
/// pull request in `reviews` of the workspace; and the record has the session, the time
/// at which it ended and the path of the report. A failure to save ends it.
pub proof fn law_review_steps(
    tool: ToolModel,
    program: Seq<char>,
    workspace: Seq<char>,
    pr_url: Seq<char>,
    pr_key: Seq<char>,
    output: OutputModel,
    finish: FinishModel,
)
    ensures
        review_run(tool, program, workspace, pr_url, pr_key, None, None) matches ReviewRunModel::Run {
            program: run,
            args,
            workspace: cwd,
            reviews,
        } && run == program && cwd == workspace && reviews == below(workspace, "reviews"@)
            && args.take(2) == seq!["-p"@, pr_url] && args.subrange(2, 4) == seq![
            "--output-format"@,
            "json"@,
        ] && args.skip(args.len() - 2) == seq!["--allowedTools"@, REVIEW_ALLOWED_TOOLS@],
        forall|id: Seq<char>, text: Seq<char>|
            {
                &&& run_reply(output, tool) is Ok
                &&& #[trigger] run_gives(run_reply(output, tool)->Ok_0, tool.name, id, text)
            } ==> {
                let blank = trimmed(text).len() == 0;
                let file = below(below(workspace, "reviews"@), safe_stem(pr_key) + ".md"@);
                let path = if blank {
                    None
                } else {
                    Some(file)
                };
                &&& review_run(tool, program, workspace, pr_url, pr_key, Some(output), None) == (
                ReviewRunModel::Save { path, report: text })
                &&& finish.failure is None || blank ==> review_run(
                    tool,
                    program,
                    workspace,
                    pr_url,
                    pr_key,
                    Some(output),
                    Some(finish),
                ) == ReviewRunModel::Done(
                    SessionModel { session_id: id, completed_at: finish.at, report_path: path },
                )
                &&& finish.failure is Some && !blank ==> (review_run(
                    tool,
                    program,
                    workspace,
                    pr_url,
                    pr_key,
                    Some(output),
                    Some(finish),
                ) matches ReviewRunModel::Failed(told) && finish.failure->0.is_suffix_of(told))
            },
        match run_reply(output, tool) {
            Err(reason) => review_run(
                tool,
                program,
                workspace,
                pr_url,
                pr_key,
                Some(output),
                Some(finish),
            ) == ReviewRunModel::Failed(reason),
            Ok(value) => run_output(value, tool.name) matches Err(reason) ==> review_run(
                tool,
                program,
                workspace,
                pr_url,
                pr_key,
                Some(output),
                Some(finish),
            ) == ReviewRunModel::Failed(reason),
        },
{
    let args = review_args(pr_url);
    assert(args.take(2) =~= seq!["-p"@, pr_url]);
    assert(args.subrange(2, 4) =~= seq!["--output-format"@, "json"@]);
    assert(args.skip(args.len() - 2) =~= seq!["--allowedTools"@, REVIEW_ALLOWED_TOOLS@]);
    if finish.failure is Some {
        let reason = finish.failure->0;
        let told = "レビュー結果を保存できませんでした: "@ + reason;
        assert(told.subrange(told.len() - reason.len(), told.len() as int) =~= reason);
    }
}

/// Whether a reply gives a session and a result.
pub open spec fn run_gives(
    value: JsonModel,
    name: Seq<char>,
    id: Seq<char>,
    text: Seq<char>,
) -> bool {
    run_output(value, name) == Ok::<(Seq<char>, Seq<char>), Seq<char>>((id, text))
}

/// A conversation is resumed by a shell line that goes to the workspace and runs the
/// program with the session; the shell reads each of the three back as it is.
pub proof fn law_resume_line(workspace: Seq<char>, program: Seq<char>, session_id: Seq<char>)
    ensures
        exists|a: Seq<char>, b: Seq<char>, c: Seq<char>|
            {
                &&& resume_shell(workspace, program, session_id) == #[trigger] ("cd "@ + a + " && "@
                    + b + " --resume "@ + c)
                &&& crate::quote::sh_word(a, false) == Some(workspace)
                &&& crate::quote::sh_word(b, false) == Some(program)
                &&& crate::quote::sh_word(c, false) == Some(session_id)
            },
{
    crate::quote::law_shell_reads_back(workspace);
    crate::quote::law_shell_reads_back(program);
    crate::quote::law_shell_reads_back(session_id);
    let a = sh_quoted(workspace);
    let b = sh_quoted(program);
    let c = sh_quoted(session_id);
    assert(resume_shell(workspace, program, session_id) == "cd "@ + a + " && "@ + b + " --resume "@
        + c);
}

/// The program is looked for below the home directory first, then in the common
/// places; each place is named after the program.
pub proof fn law_places(home: Seq<char>, name: Seq<char>, i: int)
    ensures
        ({
            let places = claude_places(Some(home), name);
            &&& 0 <= i < places.len() ==> name.is_suffix_of(places[i])
            &&& places.skip(2) == claude_places(None, name)
            &&& home.is_prefix_of(places[0]) && home.is_prefix_of(places[1])
            &&& bin_dirs(Some(home), name).skip(2) == bin_dirs(None, name)
            &&& home.is_prefix_of(bin_dirs(Some(home), name)[0]) && home.is_prefix_of(
                bin_dirs(Some(home), name)[1],
            )
        }),
{
    let places = claude_places(Some(home), name);
    assert(places.skip(2) =~= claude_places(None, name));
    assert(bin_dirs(Some(home), name).skip(2) =~= bin_dirs(None, name));
    crate::resolve::law_below(home, ".local/bin/"@ + name);
    crate::resolve::law_below(home, ".local/bin"@);
    crate::resolve::law_below(home, "."@ + name + "/local"@);
    let own = local_dir(home, name);
    assert((own + "/"@ + name).subrange(0, home.len() as int) =~= own.subrange(
        0,
        home.len() as int,
    ));
    if 0 <= i < places.len() {
        let p = places[i];
        assert(p.subrange(p.len() - name.len(), p.len() as int) =~= name);
    }
}

/// A tab is brought to the front by the id of its pane.
pub proof fn law_focus(record: LaunchedModel)
    ensures
        focus_args(record).len() == 3,
        focus_args(record).last() == record.pane_id,
        focus_args(record).drop_last() == seq!["agent"@, "focus"@],
{
    assert(focus_args(record).drop_last() =~= seq!["agent"@, "focus"@]);
}

/// A tab is asked for first, by the id of its pane; then the client is shown. Where no
/// client is attached, or its window is not found, the first herdr that exists is opened
/// in a terminal.
pub proof fn law_tab_shown(
    record: LaunchedModel,
    home: Option<Seq<char>>,
    existing: Seq<Seq<char>>,
    outputs: Seq<OutputModel>,
    herdr: Seq<char>,
)
    requires
        outputs.len() > 0,
        first_present(herdr_places(home), existing) == Some(herdr),
    ensures
        focus_step(record, false, home, existing, outputs) matches FocusModel::Focus(args)
            && args.last() == record.pane_id,
        raise_run(pids_of(outputs[0]), false, outputs, 1) is None ==> focus_step(
            record,
            true,
            home,
            existing,
            outputs,
        ) == FocusModel::Show(
            ShowModel::Open(
                shell_opening(first_present(ghostty_places(home), existing), sh_quoted(herdr)),
            ),
        ),
        raise_run(pids_of(outputs[0]), false, outputs, 1) matches Some(step) ==> focus_step(
            record,
            true,
            home,
            existing,
            outputs,
        ) == FocusModel::Show(step),
{
}

/// The tools that a headless run may use.
pub proof fn law_allowed_tools()
    ensures
        REVIEW_ALLOWED_TOOLS@ == joined(
            seq![
                "Bash"@,
                "Glob"@,
                "Grep"@,
                "Read"@,
                "Agent"@,
                "Task"@,
                "TodoWrite"@,
                "Skill"@,
            ],
            ","@,
        ),
{
    let names = seq![
        "Bash"@,
        "Glob"@,
        "Grep"@,
        "Read"@,
        "Agent"@,
        "Task"@,
        "TodoWrite"@,
        "Skill"@,
    ];
    reveal_with_fuel(joined, 9);
    assert(names.drop_last() =~= names.take(7));
    assert(names.take(7).drop_last() =~= names.take(6));
    assert(names.take(6).drop_last() =~= names.take(5));
    assert(names.take(5).drop_last() =~= names.take(4));
    assert(names.take(4).drop_last() =~= names.take(3));
    assert(names.take(3).drop_last() =~= names.take(2));
    assert(names.take(2).drop_last() =~= names.take(1));
    reveal_strlit("Bash");
    reveal_strlit("Glob");
    reveal_strlit("Grep");
    reveal_strlit("Read");
    reveal_strlit("Agent");
    reveal_strlit("Task");
    reveal_strlit("TodoWrite");
    reveal_strlit("Skill");
    reveal_strlit(",");
    reveal_strlit("Bash,Glob,Grep,Read,Agent,Task,TodoWrite,Skill");
    assert(REVIEW_ALLOWED_TOOLS@ =~= joined(names, ","@));
}

/// Runs, headless or not, and resumed sessions take place in the `workspace` below the
/// settings, with the program at the given path where that exists. A run is handed the
/// address of the pull request, and its steps are those of its key.
pub proof fn law_runs_in_workspace(
    program: Seq<char>,
    pr_url: Seq<char>,
    pr_key: Seq<char>,
    session_id: Seq<char>,
    home: Seq<char>,
    tool: ToolModel,
    existing: Seq<Seq<char>>,
    runs: Seq<Option<OutputModel>>,
    output: Option<OutputModel>,
    finish: Option<FinishModel>,
)
    requires
        home.len() > 0,
        home.last() != '/',
        program.contains('/'),
        existing.contains(program),
    ensures
        ({
            let cwd = home + "/.config/gh-review-insight/workspace"@;
            &&& launch_step(program, pr_url, pr_key, Some(home), tool.name, existing, runs)
                == launch_run(pr_url, pr_key, cwd, program, runs)
            &&& review_step(program, pr_url, pr_key, Some(home), tool, existing, output, finish)
                == review_run(tool, program, cwd, pr_url, pr_key, output, finish)
            &&& resume_line(program, session_id, Some(home), tool.name, existing) == Some(
                "cd "@ + sh_quoted(cwd) + " && "@ + sh_quoted(program) + " --resume "@ + sh_quoted(
                    session_id,
                ),
            )
        }),
{
    reveal_strlit("/.config/gh-review-insight/workspace");
    reveal_strlit("/.config/gh-review-insight/");
    reveal_strlit("workspace");
    crate::config::law_settings_file(home, "workspace"@);
    let cwd = home + "/.config/gh-review-insight/workspace"@;
    assert(settings_file(Some(home), "workspace"@)->0 =~= cwd);
}

/// A name, or a path that is gone, stands for the first place of the AI command that
/// exists; where none does, for itself.
pub proof fn law_program_found(
    preferred: Seq<char>,
    pr_url: Seq<char>,
    pr_key: Seq<char>,
    home: Seq<char>,
    tool: ToolModel,
    existing: Seq<Seq<char>>,
    i: int,
)
    requires
        !preferred.contains('/') || !existing.contains(preferred),
        0 <= i <= claude_places(Some(home), tool.name).len(),
        forall|j: int|
            0 <= j < i ==> !existing.contains(#[trigger] claude_places(Some(home), tool.name)[j]),
        i < claude_places(Some(home), tool.name).len() ==> existing.contains(
            claude_places(Some(home), tool.name)[i],
        ),
    ensures
        review_step(preferred, pr_url, pr_key, Some(home), tool, existing, None, None) matches
            ReviewRunModel::Run { program, .. } && program == if i < claude_places(
            Some(home),
            tool.name,
        ).len() {
            claude_places(Some(home), tool.name)[i]
        } else {
            preferred
        },
{
    let places = claude_places(Some(home), tool.name);
    crate::resolve::law_resolved(preferred, places, existing);
    let program = resolved(preferred, places, existing);
    if i < places.len() {
        assert(!(forall|j: int|
            0 <= j < places.len() ==> !existing.contains(#[trigger] places[j])));
        let k = choose|k: int|
            {
                &&& 0 <= k < places.len()
                &&& #[trigger] places[k] == program
                &&& existing.contains(program)
                &&& forall|j: int| 0 <= j < k ==> !existing.contains(#[trigger] places[j])
            };
        assert(k == i);
    }
}

/// Without a home directory there is no workspace, so that no run starts.
pub proof fn law_no_home(
    preferred: Seq<char>,
    pr_url: Seq<char>,
    pr_key: Seq<char>,
    session_id: Seq<char>,
    tool: ToolModel,
    existing: Seq<Seq<char>>,
    runs: Seq<Option<OutputModel>>,
    output: Option<OutputModel>,
    finish: Option<FinishModel>,
)
    ensures
        launch_step(preferred, pr_url, pr_key, None, tool.name, existing, runs)
            == LaunchModel::Failed(
            "HOME が取得できず作業ディレクトリを決められませんでした。"@,
        ),
        review_step(preferred, pr_url, pr_key, None, tool, existing, output, finish)
            == ReviewRunModel::Failed(
            "HOME が取得できず作業ディレクトリを決められませんでした。"@,
        ),
        resume_line(preferred, session_id, None, tool.name, existing) is None,
{
}

} // verus!
