//! GitHub transport. Auth and API access are left to the official `gh` program;
//! here stand its arguments and the reading of what it prints.
use vstd::prelude::*;

use crate::json::{parse_json, parsed, Json, JsonModel};
use crate::number::{decimal, decimal_int};
use crate::process::{arguments, lossy, text_of, Output, OutputModel};
use crate::resolve::{resolve_in, resolved};
use crate::text::{cat, cat3, joined, texts, trim, trimmed};

verus! {

/// Locations commonly holding `gh` that are missing from the minimal PATH a GUI
/// launch (Dock / Spotlight / login item) inherits.
pub open spec fn gh_places() -> Seq<Seq<char>> {
    seq!["/opt/homebrew/bin/gh"@, "/usr/local/bin/gh"@, "/usr/bin/gh"@]
}

/// Locations commonly holding `gh`.
pub fn gh_candidates() -> (r: Vec<String>)
    ensures
        texts(r@) == gh_places(),
{
    let r = arguments(&["/opt/homebrew/bin/gh", "/usr/local/bin/gh", "/usr/bin/gh"]);
    assert(texts(r@) =~= gh_places());
    r
}

/// Resolve the `gh` binary. When launched from the terminal, PATH already has
/// it; from a `.app` it usually does not, so fall back to common locations.
/// `existing` lists the paths that exist.
pub fn resolve_gh(preferred: &str, existing: &Vec<String>) -> (r: String)
    ensures
        r@ == resolved(preferred@, gh_places(), texts(existing@)),
{
    resolve_gh_in(preferred, &gh_candidates(), existing)
}

/// Resolve the `gh` binary among `candidates`; `existing` lists the paths that
/// exist. An explicit path that exists wins.
pub fn resolve_gh_in(preferred: &str, candidates: &Vec<String>, existing: &Vec<String>) -> (r:
    String)
    ensures
        r@ == resolved(preferred@, texts(candidates@), texts(existing@)),
{
    resolve_in(preferred, candidates, existing)
}

/// PATH with the common bin dirs before it.
pub open spec fn wider_path(existing: Seq<char>) -> Seq<char> {
    "/opt/homebrew/bin:/usr/local/bin:/usr/bin:"@ + existing
}

/// PATH augmented with the common bin dirs, for any tools `gh` itself spawns.
pub fn augmented_path(existing: &str) -> (r: String)
    ensures
        r@ == "/opt/homebrew/bin:/usr/local/bin:/usr/bin:"@ + existing@,
        r@ == wider_path(existing@),
{
    cat("/opt/homebrew/bin:/usr/local/bin:/usr/bin:", existing)
}

/// The query for the login of the authenticated user.
pub const VIEWER_QUERY: &'static str = r#"
query {
  viewer {
    login
  }
}
"#;

/// A GraphQL variable value. `gh api graphql` distinguishes raw (`-F`, used for
/// numbers/bools) from string (`-f`) arguments.
pub enum GqlVar {
    Str(String),
    Int(i64),
}

/// A GraphQL variable with its name.
pub struct Variable {
    pub key: String,
    pub value: GqlVar,
}

/// What a GraphQL variable holds.
#[verifier::ext_equal]
pub enum GqlModel {
    Str(Seq<char>),
    Int(int),
}

/// What a named GraphQL variable holds.
#[verifier::ext_equal]
pub struct VariableModel {
    pub key: Seq<char>,
    pub value: GqlModel,
}

impl View for Variable {
    type V = VariableModel;

    open spec fn view(&self) -> VariableModel {
        VariableModel {
            key: self.key@,
            value: match self.value {
                GqlVar::Str(s) => GqlModel::Str(s@),
                GqlVar::Int(n) => GqlModel::Int(n as int),
            },
        }
    }
}

/// The variables of a list.
pub open spec fn variable_models(vars: Seq<Variable>) -> Seq<VariableModel> {
    vars.map_values(|v: Variable| v@)
}

/// The arguments that pass variables: for each its flag and `name=value`.
pub open spec fn variable_args(vars: Seq<VariableModel>) -> Seq<Seq<char>>
    decreases vars.len(),
{
    if vars.len() == 0 {
        Seq::empty()
    } else {
        let var = vars.last();
        variable_args(vars.drop_last()) + match var.value {
            GqlModel::Str(s) => seq!["-f"@, var.key + "="@ + s],
            GqlModel::Int(n) => seq!["-F"@, var.key + "="@ + decimal_int(n)],
        }
    }
}

/// The arguments of `gh` for a query with variables.
pub open spec fn graphql_args(query: Seq<char>, vars: Seq<VariableModel>) -> Seq<Seq<char>> {
    seq!["api"@, "graphql"@, "-f"@, "query="@ + query] + variable_args(vars)
}

/// What a run of `gh` replies: the JSON value it printed, or the reason why there
/// is none.
pub open spec fn gh_reply(output: OutputModel) -> Result<JsonModel, Seq<char>> {
    match output {
        OutputModel::NotStarted(reason) => Err(
            "GitHub CLI `gh` を実行できませんでした（先に `gh auth login` まで済ませてください）: "@
                + reason,
        ),
        OutputModel::Ended { success, stdout, stderr } => if !success {
            if trimmed(lossy(stderr)).len() == 0 {
                Err("`gh api graphql` の実行に失敗しました。"@)
            } else {
                Err(trimmed(lossy(stderr)))
            }
        } else {
            match parsed(stdout) {
                Ok(data) => Ok(data),
                Err(reason) => Err("`gh` のJSON応答を解析できませんでした: "@ + reason),
            }
        },
    }
}

/// The login in a reply to the viewer query.
pub open spec fn viewer_in(reply: Result<JsonModel, Seq<char>>) -> Result<Seq<char>, Seq<char>> {
    match reply {
        Ok(data) => match data.at("data"@).at("viewer"@).at("login"@).text() {
            Some(login) => Ok(login),
            None => Err("GitHub viewer login を取得できませんでした。"@),
        },
        Err(reason) => Err(reason),
    }
}

/// A reply with its text or value as plain data.
pub open spec fn reply_in(r: Result<Json, String>) -> Result<JsonModel, Seq<char>> {
    match r {
        Ok(j) => Ok(j@),
        Err(e) => Err(e@),
    }
}

/// A text or a reason as plain data.
pub open spec fn text_reply(r: Result<String, String>) -> Result<Seq<char>, Seq<char>> {
    match r {
        Ok(t) => Ok(t@),
        Err(e) => Err(e@),
    }
}

/// Thin wrapper around `gh api graphql`.
pub struct GhClient {
    pub gh_path: String,
}

impl GhClient {
    /// A client for the `gh` at the given path or of the given name.
    pub fn new(gh_path: String) -> (r: GhClient)
        ensures
            r.gh_path == gh_path,
    {
        GhClient { gh_path }
    }

    /// The program to run for this client, given which paths exist.
    pub fn program(&self, existing: &Vec<String>) -> (r: String)
        ensures
            r@ == resolved(self.gh_path@, gh_places(), texts(existing@)),
    {
        resolve_gh(self.gh_path.as_str(), existing)
    }

    /// The arguments with which `gh` runs a GraphQL query.
    pub fn graphql(&self, query: &str, vars: &Vec<Variable>) -> (r: Vec<String>)
        ensures
            texts(r@) == graphql_args(query@, variable_models(vars@)),
    {
        graphql_arguments(query, vars)
    }

    /// The login of the currently authenticated user, from the reply to the
    /// viewer query.
    pub fn viewer_login(&self, reply: &Result<Json, String>) -> (r: Result<String, String>)
        ensures
            text_reply(r) == viewer_in(reply_in(*reply)),
    {
        viewer_login_in(reply)
    }
}

/// The arguments with which `gh` runs a GraphQL query.
pub fn graphql_arguments(query: &str, vars: &Vec<Variable>) -> (r: Vec<String>)
    ensures
        texts(r@) == graphql_args(query@, variable_models(vars@)),
{
    let text = cat("query=", query);
    let mut out = arguments(&["api", "graphql", "-f", text.as_str()]);
    let ghost head = texts(out@);
    assert(head =~= seq!["api"@, "graphql"@, "-f"@, "query="@ + query@]);
    let ghost all = variable_models(vars@);
    assert(texts(out@) =~= head + variable_args(all.take(0)));
    for i in 0..vars.len()
        invariant
            all == variable_models(vars@),
            texts(out@) == head + variable_args(all.take(i as int)),
    {
        let ghost earlier = texts(out@);
        proof {
            assert(all.take(i + 1).drop_last() =~= all.take(i as int));
            assert(all.take(i + 1).last() == vars@[i as int]@);
        }
        match &vars[i].value {
            GqlVar::Str(s) => {
                let pair = cat3(vars[i].key.as_str(), "=", s.as_str());
                out.push("-f".to_owned());
                out.push(pair);
                assert(texts(out@) =~= earlier + seq!["-f"@, pair@]);
            },
            GqlVar::Int(n) => {
                let pair = cat3(vars[i].key.as_str(), "=", decimal(*n).as_str());
                out.push("-F".to_owned());
                out.push(pair);
                assert(texts(out@) =~= earlier + seq!["-F"@, pair@]);
            },
        }
        assert(texts(out@) =~= head + variable_args(all.take(i + 1)));
    }
    assert(all.take(all.len() as int) =~= all);
    out
}

/// What a run of `gh` replies.
pub fn read_reply(output: &Output) -> (r: Result<Json, String>)
    ensures
        reply_in(r) == gh_reply(output@),
{
    match output {
        Output::NotStarted(reason) => Err(
            cat(
                "GitHub CLI `gh` を実行できませんでした（先に `gh auth login` まで済ませてください）: ",
                reason.as_str(),
            ),
        ),
        Output::Ended { success, stdout, stderr } => {
            if !*success {
                let reason = trim(text_of(stderr.as_slice()).as_str());
                if reason.as_str().is_empty() {
                    Err("`gh api graphql` の実行に失敗しました。".to_owned())
                } else {
                    Err(reason)
                }
            } else {
                match parse_json(stdout.as_slice()) {
                    Ok(data) => Ok(data),
                    Err(reason) => Err(
                        cat("`gh` のJSON応答を解析できませんでした: ", reason.as_str()),
                    ),
                }
            }
        },
    }
}

/// The login in a reply to the viewer query.
pub fn viewer_login_in(reply: &Result<Json, String>) -> (r: Result<String, String>)
    ensures
        text_reply(r) == viewer_in(reply_in(*reply)),
{
    match reply {
        Ok(data) => {
            let login = match data.get("data") {
                Some(inner) => inner.text_within("viewer", "login"),
                None => None,
            };
            match login {
                Some(login) => Ok(login),
                None => Err("GitHub viewer login を取得できませんでした。".to_owned()),
            }
        },
        Err(reason) => Err(reason.clone()),
    }
}

/// `gh` is asked for a GraphQL query; the query is passed, then each variable as its
/// name and value, a text as it is (`-f`) and a number in decimal (`-F`); and nothing
/// else is passed.
pub proof fn law_query_passed(query: Seq<char>, vars: Seq<VariableModel>, i: int)
    requires
        0 <= i < vars.len(),
    ensures
        ({
            let args = graphql_args(query, vars);
            &&& args.len() == 4 + 2 * vars.len()
            &&& args[0] == "api"@ && args[1] == "graphql"@
            &&& args[2] == "-f"@ && args[3] == "query="@ + query
            &&& args[5 + 2 * i] == vars[i].key + "="@ + match vars[i].value {
                GqlModel::Str(s) => s,
                GqlModel::Int(n) => decimal_int(n),
            }
            &&& args[4 + 2 * i] == if vars[i].value is Str {
                "-f"@
            } else {
                "-F"@
            }
        }),
{
    lemma_variable_args(vars, i);
}

proof fn lemma_variable_args(vars: Seq<VariableModel>, i: int)
    requires
        0 <= i < vars.len(),
    ensures
        variable_args(vars).len() == 2 * vars.len(),
        variable_args(vars)[2 * i] == if vars[i].value is Str {
            "-f"@
        } else {
            "-F"@
        },
        variable_args(vars)[2 * i + 1] == vars[i].key + "="@ + match vars[i].value {
            GqlModel::Str(s) => s,
            GqlModel::Int(n) => decimal_int(n),
        },
    decreases vars.len(),
{
    let rest = vars.drop_last();
    if rest.len() > 0 {
        lemma_variable_args(
            rest,
            if i < rest.len() {
                i
            } else {
                0
            },
        );
    } else {
        assert(variable_args(rest) =~= Seq::empty());
    }
}

/// A run of `gh` that was successful replies with what it printed, where that is
/// JSON; any other run is a failure. What `gh` said of a failed run is the reason,
/// without the white space around it, unless it said nothing.
pub proof fn law_reply(output: OutputModel)
    ensures
        match output {
            OutputModel::NotStarted(reason) => gh_reply(output) matches Err(told)
                && reason.is_suffix_of(told),
            OutputModel::Ended { success, stdout, stderr } => {
                &&& forall|data: JsonModel|
                    gh_reply(output) == Ok::<JsonModel, Seq<char>>(data) <==> success && #[trigger] is_reply(
                        stdout,
                        data,
                    )
                &&& !success && trimmed(lossy(stderr)).len() > 0 ==> gh_reply(output) == Err::<
                    JsonModel,
                    Seq<char>,
                >(trimmed(lossy(stderr)))
                &&& gh_reply(output) matches Err(told) ==> told.len() > 0
                &&& success && parsed(stdout) is Err ==> (gh_reply(output) matches Err(told)
                    && parsed(stdout)->Err_0.is_suffix_of(told))
            },
        },
{
    reveal_strlit("`gh api graphql` の実行に失敗しました。");
    reveal_strlit("`gh` のJSON応答を解析できませんでした: ");
    match output {
        OutputModel::NotStarted(reason) => {
            let told = gh_reply(output)->Err_0;
            assert(told.subrange(told.len() - reason.len(), told.len() as int) =~= reason);
        },
        OutputModel::Ended { success, stdout, stderr } => {
            if success && parsed(stdout) is Err {
                let reason = parsed(stdout)->Err_0;
                let told = gh_reply(output)->Err_0;
                assert(told.subrange(told.len() - reason.len(), told.len() as int) =~= reason);
            }
        },
    }
}

/// Whether bytes read as this JSON value.
pub open spec fn is_reply(bytes: Seq<u8>, data: JsonModel) -> bool {
    parsed(bytes) == Ok::<JsonModel, Seq<char>>(data)
}

/// The viewer is whom the reply names at `data.viewer.login`; a reply without that
/// text, or none at all, is a failure, with the reason of the reply where it has
/// one.
pub proof fn law_viewer(reply: Result<JsonModel, Seq<char>>, login: Seq<char>)
    ensures
        viewer_in(reply) == Ok::<Seq<char>, Seq<char>>(login) <==> (reply matches Ok(data)
            && data.at("data"@).at("viewer"@).at("login"@) == JsonModel::Text(login)),
        reply matches Err(reason) ==> viewer_in(reply) == Err::<Seq<char>, Seq<char>>(reason),
{
}

/// The places where `gh` is looked for are those of the bin dirs that come before PATH,
/// in that order.
pub proof fn law_gh_places(existing: Seq<char>)
    ensures
        ({
            let dirs = seq!["/opt/homebrew/bin"@, "/usr/local/bin"@, "/usr/bin"@];
            &&& wider_path(existing) == joined(dirs.push(existing), ":"@)
            &&& gh_places() == dirs.map_values(|d: Seq<char>| d + "/gh"@)
        }),
{
    let dirs = seq!["/opt/homebrew/bin"@, "/usr/local/bin"@, "/usr/bin"@];
    reveal_strlit("/opt/homebrew/bin");
    reveal_strlit("/usr/local/bin");
    reveal_strlit("/usr/bin");
    reveal_strlit("/gh");
    reveal_strlit(":");
    reveal_strlit("/opt/homebrew/bin/gh");
    reveal_strlit("/usr/local/bin/gh");
    reveal_strlit("/usr/bin/gh");
    reveal_strlit("/opt/homebrew/bin:/usr/local/bin:/usr/bin:");
    assert("/opt/homebrew/bin/gh"@ =~= "/opt/homebrew/bin"@ + "/gh"@);
    assert("/usr/local/bin/gh"@ =~= "/usr/local/bin"@ + "/gh"@);
    assert("/usr/bin/gh"@ =~= "/usr/bin"@ + "/gh"@);
    assert(gh_places() =~= dirs.map_values(|d: Seq<char>| d + "/gh"@));
    let all = dirs.push(existing);
    reveal_with_fuel(joined, 4);
    assert(all.drop_last() =~= dirs);
    assert(dirs.drop_last() =~= seq!["/opt/homebrew/bin"@, "/usr/local/bin"@]);
    assert(dirs.drop_last().drop_last() =~= seq!["/opt/homebrew/bin"@]);
    assert(wider_path(existing) =~= joined(all, ":"@));
}

} // verus!
