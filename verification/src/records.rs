//! Records of AI reviews, and the files they are kept in.
use vstd::prelude::*;

use crate::json::{
    is_row, is_table, member, named, named_values, names_increase, object_value, orderly, parse_json,
    parsed, render_json, rendered, text_in, text_or_null, text_or_null_value, text_value, Json,
    JsonModel, Member,
};
use crate::order::before;
use crate::textmap::{in_order, lists, TextMap};

verus! {

/// A finished headless review: the session to resume and the saved report.
#[derive(Clone, Debug, PartialEq, Eq)]
pub struct AiSessionRecord {
    pub session_id: String,
    /// RFC3339 timestamp of when the run finished.
    pub completed_at: String,
    /// Absolute path of the saved report, if the run produced text.
    pub report_path: Option<String>,
}

/// What the record of a finished review holds.
#[verifier::ext_equal]
pub struct SessionModel {
    pub session_id: Seq<char>,
    pub completed_at: Seq<char>,
    pub report_path: Option<Seq<char>>,
}

impl View for AiSessionRecord {
    type V = SessionModel;

    open spec fn view(&self) -> SessionModel {
        SessionModel {
            session_id: self.session_id@,
            completed_at: self.completed_at@,
            report_path: text_in(self.report_path),
        }
    }
}

/// The JSON form of the record of a finished review.
pub open spec fn session_value(r: SessionModel) -> JsonModel {
    JsonModel::Object(
        seq![
            Member { name: "completed_at"@, value: JsonModel::Text(r.completed_at) },
            Member { name: "report_path"@, value: text_or_null(r.report_path) },
            Member { name: "session_id"@, value: JsonModel::Text(r.session_id) },
        ],
    )
}

/// The record of a finished review in a JSON value; none without a session id.
pub open spec fn session_in(j: JsonModel) -> Option<SessionModel> {
    let id = j.at("session_id"@).text_or_empty();
    if id.len() == 0 {
        None
    } else {
        Some(
            SessionModel {
                session_id: id,
                completed_at: j.at("completed_at"@).text_or_empty(),
                report_path: j.at("report_path"@).text(),
            },
        )
    }
}

/// The record in an optional session.
pub open spec fn session_model(r: Option<AiSessionRecord>) -> Option<SessionModel> {
    match r {
        Some(r) => Some(r@),
        None => None,
    }
}

proof fn lemma_session_names()
    ensures
        before("completed_at"@, "report_path"@),
        before("completed_at"@, "session_id"@),
        before("report_path"@, "session_id"@),
        "completed_at"@ != "report_path"@,
        "completed_at"@ != "session_id"@,
        "report_path"@ != "session_id"@,
{
    reveal_strlit("completed_at");
    reveal_strlit("report_path");
    reveal_strlit("session_id");
    assert("completed_at"@[0] == 'c');
    assert("report_path"@[0] == 'r');
    assert("session_id"@[0] == 's');
}

/// A record of a finished review reads back from its JSON form where it has a
/// session id, and is dropped where it has none.
pub proof fn law_session_roundtrip(r: SessionModel)
    ensures
        session_in(session_value(r)) == if r.session_id.len() > 0 {
            Some(r)
        } else {
            None
        },
{
    lemma_session_names();
    reveal_with_fuel(member, 4);
    let all = session_value(r)->Object_0;
    assert(all.skip(1) =~= seq![all[1], all[2]]);
    assert(all.skip(1).skip(1) =~= seq![all[2]]);
    assert(session_value(r).at("completed_at"@) == all[0].value);
    assert(session_value(r).at("report_path"@) == all[1].value);
    assert(session_value(r).at("session_id"@) == all[2].value);
}

proof fn lemma_session_row(r: SessionModel)
    ensures
        is_row(session_value(r)),
        orderly(session_value(r)),
{
    lemma_session_names();
    reveal_with_fuel(orderly, 2);
    assert(names_increase(session_value(r)->Object_0));
}

impl AiSessionRecord {
    /// The JSON form of the record.
    pub fn to_value(&self) -> (r: Json)
        ensures
            r@ == session_value(self@),
    {
        let members = vec![
            named("completed_at", text_value(self.completed_at.as_str())),
            named("report_path", text_or_null_value(&self.report_path)),
            named("session_id", text_value(self.session_id.as_str())),
        ];
        assert(named_values(members@) =~= session_value(self@)->Object_0);
        object_value(members)
    }

    /// The record in a JSON value. Records without a session id are dropped.
    pub fn from_value(value: &Json) -> (r: Option<AiSessionRecord>)
        ensures
            session_model(r) == session_in(value@),
    {
        let session_id = value.text_or_empty_at("session_id");
        if session_id.as_str().is_empty() {
            return None;
        }
        Some(
            AiSessionRecord {
                session_id,
                completed_at: value.text_or_empty_at("completed_at"),
                report_path: value.text_at("report_path"),
            },
        )
    }

    /// A copy of the record.
    pub fn copy(&self) -> (r: AiSessionRecord)
        ensures
            r@ == self@,
    {
        AiSessionRecord {
            session_id: self.session_id.clone(),
            completed_at: self.completed_at.clone(),
            report_path: crate::model::copy_text(&self.report_path),
        }
    }
}

/// A review launched interactively as a herdr tab.
#[derive(Clone, Debug, PartialEq, Eq)]
pub struct LaunchedRecord {
    /// herdr terminal id (`term_…`), used to focus this PR's tab.
    pub pane_id: String,
    /// The tab name the run was created with (`repo#42`), double-checking
    /// identity in case ids are ever reused.
    pub window_name: String,
}

/// What the record of a launched review holds.
#[verifier::ext_equal]
pub struct LaunchedModel {
    pub pane_id: Seq<char>,
    pub window_name: Seq<char>,
}

impl View for LaunchedRecord {
    type V = LaunchedModel;

    open spec fn view(&self) -> LaunchedModel {
        LaunchedModel { pane_id: self.pane_id@, window_name: self.window_name@ }
    }
}

/// The JSON form of the record of a launched review.
pub open spec fn launched_value(r: LaunchedModel) -> JsonModel {
    JsonModel::Object(
        seq![
            Member { name: "backend"@, value: JsonModel::Text("herdr"@) },
            Member { name: "pane_id"@, value: JsonModel::Text(r.pane_id) },
            Member { name: "window_name"@, value: JsonModel::Text(r.window_name) },
        ],
    )
}

/// The record of a launched review in a JSON value; none of another backend or
/// without a pane id.
pub open spec fn launched_in(j: JsonModel) -> Option<LaunchedModel> {
    let id = j.at("pane_id"@).text_or_empty();
    if j.at("backend"@).text() != Some("herdr"@) || id.len() == 0 {
        None
    } else {
        Some(LaunchedModel { pane_id: id, window_name: j.at("window_name"@).text_or_empty() })
    }
}

/// The record in an optional launched review.
pub open spec fn launched_model(r: Option<LaunchedRecord>) -> Option<LaunchedModel> {
    match r {
        Some(r) => Some(r@),
        None => None,
    }
}

proof fn lemma_launched_names()
    ensures
        before("backend"@, "pane_id"@),
        before("backend"@, "window_name"@),
        before("pane_id"@, "window_name"@),
        "backend"@ != "pane_id"@,
        "backend"@ != "window_name"@,
        "pane_id"@ != "window_name"@,
{
    reveal_strlit("backend");
    reveal_strlit("pane_id");
    reveal_strlit("window_name");
    assert("backend"@[0] == 'b');
    assert("pane_id"@[0] == 'p');
    assert("window_name"@[0] == 'w');
}

/// A record of a launched review reads back from its JSON form where it has a pane
/// id, and is dropped where it has none.
pub proof fn law_launched_roundtrip(r: LaunchedModel)
    ensures
        launched_in(launched_value(r)) == if r.pane_id.len() > 0 {
            Some(r)
        } else {
            None
        },
{
    lemma_launched_names();
    reveal_with_fuel(member, 4);
    let all = launched_value(r)->Object_0;
    assert(all.skip(1) =~= seq![all[1], all[2]]);
    assert(all.skip(1).skip(1) =~= seq![all[2]]);
    assert(launched_value(r).at("backend"@) == all[0].value);
    assert(launched_value(r).at("pane_id"@) == all[1].value);
    assert(launched_value(r).at("window_name"@) == all[2].value);
}

proof fn lemma_launched_row(r: LaunchedModel)
    ensures
        is_row(launched_value(r)),
        orderly(launched_value(r)),
{
    lemma_launched_names();
    reveal_with_fuel(orderly, 2);
    assert(names_increase(launched_value(r)->Object_0));
}

impl LaunchedRecord {
    /// The JSON form of the record.
    pub fn to_value(&self) -> (r: Json)
        ensures
            r@ == launched_value(self@),
    {
        let members = vec![
            named("backend", text_value("herdr")),
            named("pane_id", text_value(self.pane_id.as_str())),
            named("window_name", text_value(self.window_name.as_str())),
        ];
        assert(named_values(members@) =~= launched_value(self@)->Object_0);
        object_value(members)
    }

    /// The record in a JSON value. Records of another backend, or of none, and
    /// records without a pane id are dropped.
    pub fn from_value(value: &Json) -> (r: Option<LaunchedRecord>)
        ensures
            launched_model(r) == launched_in(value@),
    {
        let herdr: bool = match value.text_at("backend") {
            Some(backend) => crate::text::same(backend.as_str(), "herdr"),
            None => false,
        };
        let pane_id = value.text_or_empty_at("pane_id");
        if !herdr || pane_id.as_str().is_empty() {
            return None;
        }
        Some(LaunchedRecord { pane_id, window_name: value.text_or_empty_at("window_name") })
    }

    /// A copy of the record.
    pub fn copy(&self) -> (r: LaunchedRecord)
        ensures
            r@ == self@,
    {
        LaunchedRecord { pane_id: self.pane_id.clone(), window_name: self.window_name.clone() }
    }
}

/// The records that a list of named JSON values holds, read one by one with
/// `read`; of two with one name the later stays.
pub open spec fn rows_in<M>(
    members: Seq<Member>,
    read: spec_fn(JsonModel) -> Option<M>,
) -> Map<Seq<char>, M>
    decreases members.len(),
{
    if members.len() == 0 {
        Map::empty()
    } else {
        let rest = rows_in(members.drop_last(), read);
        match read(members.last().value) {
            Some(r) => rest.insert(members.last().name, r),
            None => rest,
        }
    }
}

/// The records in a JSON object of rows; none of any other value.
pub open spec fn table_of<M>(
    j: JsonModel,
    read: spec_fn(JsonModel) -> Option<M>,
) -> Map<Seq<char>, M> {
    match j {
        JsonModel::Object(members) => rows_in(members, read),
        _ => Map::empty(),
    }
}

/// The records in a file of JSON rows; none where there is no file or it holds
/// no JSON object.
pub open spec fn table_in<M>(
    text: Option<Seq<char>>,
    read: spec_fn(JsonModel) -> Option<M>,
) -> Map<Seq<char>, M> {
    match text {
        Some(text) => match parsed(vstd::utf8::encode_utf8(text)) {
            Ok(j) => table_of(j, read),
            Err(_) => Map::empty(),
        },
        None => Map::empty(),
    }
}

/// The rows of records by name, in the order of the names.
pub open spec fn table_value<M>(
    records: Map<Seq<char>, M>,
    write: spec_fn(M) -> JsonModel,
) -> JsonModel {
    JsonModel::Object(
        in_order(records.dom()).map_values(
            |k: Seq<char>| Member { name: k, value: write(records[k]) },
        ),
    )
}

/// The records that `keep` keeps.
pub open spec fn kept_records<M>(
    records: Map<Seq<char>, M>,
    keep: spec_fn(M) -> bool,
) -> Map<Seq<char>, M> {
    Map::new(
        |k: Seq<char>| records.contains_key(k) && keep(records[k]),
        |k: Seq<char>| records[k],
    )
}

/// Whether each record reads back as itself where it is kept, and not at all where
/// it is not.
spec fn reads_back<M>(
    write: spec_fn(M) -> JsonModel,
    read: spec_fn(JsonModel) -> Option<M>,
    keep: spec_fn(M) -> bool,
) -> bool {
    forall|m: M|
        read(#[trigger] write(m)) == if keep(m) {
            Some(m)
        } else {
            None
        }
}

proof fn lemma_table_rows<M>(
    records: Map<Seq<char>, M>,
    write: spec_fn(M) -> JsonModel,
    read: spec_fn(JsonModel) -> Option<M>,
    keep: spec_fn(M) -> bool,
    n: int,
)
    requires
        lists(in_order(records.dom()), records.dom()),
        reads_back(write, read, keep),
        0 <= n <= in_order(records.dom()).len(),
    ensures
        ({
            let keys = in_order(records.dom()).take(n);
            let some = rows_in(table_value(records, write)->Object_0.take(n), read);
            &&& forall|k: Seq<char>|
                keys.contains(k) && keep(records[k]) <==> #[trigger] some.contains_key(k)
            &&& forall|k: Seq<char>| #[trigger] some.contains_key(k) ==> some[k] == records[k]
        }),
    decreases n,
{
    let all = in_order(records.dom());
    let rows = table_value(records, write)->Object_0;
    if n > 0 {
        lemma_table_rows(records, write, read, keep, n - 1);
        assert(rows.take(n).drop_last() =~= rows.take(n - 1));
        assert(rows.take(n).last() == rows[n - 1]);
        let keys = all.take(n);
        let fewer = all.take(n - 1);
        let some = rows_in(rows.take(n), read);
        let start = rows_in(rows.take(n - 1), read);
        let last = all[n - 1];
        assert(rows[n - 1].name == last);
        assert(rows[n - 1].value == write(records[last]));
        assert(some == if keep(records[last]) {
            start.insert(last, records[last])
        } else {
            start
        });
        assert forall|k: Seq<char>|
            keys.contains(k) && keep(records[k]) <==> #[trigger] some.contains_key(k) by {
            if keys.contains(k) && keep(records[k]) {
                let i = choose|i: int| 0 <= i < keys.len() && keys[i] == k;
                if i < n - 1 {
                    assert(fewer[i] == k);
                    assert(start.contains_key(k));
                }
            }
            if some.contains_key(k) {
                if k == last && keep(records[last]) {
                    assert(keys[n - 1] == k);
                } else {
                    assert(start.contains_key(k));
                    assert(fewer.contains(k));
                    let i = choose|i: int| 0 <= i < fewer.len() && fewer[i] == k;
                    assert(keys[i] == k);
                }
            }
        }
        assert forall|k: Seq<char>| #[trigger] some.contains_key(k) implies some[k]
            == records[k] by {
            if k != last || !keep(records[last]) {
                assert(start.contains_key(k));
            }
        }
    }
}

/// Rows that read back one by one read back as a table, without those that are not
/// kept.
proof fn lemma_table_back<M>(
    records: Map<Seq<char>, M>,
    write: spec_fn(M) -> JsonModel,
    read: spec_fn(JsonModel) -> Option<M>,
    keep: spec_fn(M) -> bool,
)
    requires
        lists(in_order(records.dom()), records.dom()),
        reads_back(write, read, keep),
    ensures
        rows_in(table_value(records, write)->Object_0, read) == kept_records(records, keep),
{
    let all = in_order(records.dom());
    let rows = table_value(records, write)->Object_0;
    lemma_table_rows(records, write, read, keep, all.len() as int);
    assert(rows.take(all.len() as int) =~= rows);
    assert(all.take(all.len() as int) =~= all);
    assert forall|k: Seq<char>| #[trigger] all.contains(k) <==> records.contains_key(k) by {
        assert(records.dom().contains(k) == records.contains_key(k));
    }
    assert(rows_in(rows, read) =~= kept_records(records, keep));
}

/// Rows make a table.
proof fn lemma_is_table<M>(records: Map<Seq<char>, M>, write: spec_fn(M) -> JsonModel)
    requires
        lists(in_order(records.dom()), records.dom()),
        forall|m: M| is_row(#[trigger] write(m)) && orderly(write(m)),
    ensures
        is_table(table_value(records, write)),
        orderly(table_value(records, write)),
{
    let all = in_order(records.dom());
    let rows = table_value(records, write)->Object_0;
    assert forall|i: int, j: int| 0 <= i < j < rows.len() implies before(
        (#[trigger] rows[i]).name,
        (#[trigger] rows[j]).name,
    ) by {
        assert(before(all[i], all[j]));
    }
    assert forall|i: int| 0 <= i < rows.len() implies is_row((#[trigger] rows[i]).value) by {
        assert(rows[i].value == write(records[all[i]]));
    }
    assert forall|i: int| 0 <= i < rows.len() implies orderly((#[trigger] rows[i]).value) by {
        assert(rows[i].value == write(records[all[i]]));
    }
}

/// How a session is read from JSON.
pub open spec fn read_session() -> spec_fn(JsonModel) -> Option<SessionModel> {
    |j: JsonModel| session_in(j)
}

/// How a session is written to JSON.
pub open spec fn write_session() -> spec_fn(SessionModel) -> JsonModel {
    |r: SessionModel| session_value(r)
}

/// Which sessions have their id.
pub open spec fn session_has_id() -> spec_fn(SessionModel) -> bool {
    |r: SessionModel| r.session_id.len() > 0
}

/// Which launched reviews have their pane id.
pub open spec fn launch_has_id() -> spec_fn(LaunchedModel) -> bool {
    |r: LaunchedModel| r.pane_id.len() > 0
}

/// How a launched review is read from JSON.
pub open spec fn read_launch() -> spec_fn(JsonModel) -> Option<LaunchedModel> {
    |j: JsonModel| launched_in(j)
}

/// How a launched review is written to JSON.
pub open spec fn write_launch() -> spec_fn(LaunchedModel) -> JsonModel {
    |r: LaunchedModel| launched_value(r)
}

/// The review sessions by PR URL in a JSON value.
pub fn sessions_in(json: &Json) -> (r: TextMap<AiSessionRecord>)
    ensures
        r@ == table_of(json@, read_session()),
{
    let mut out: TextMap<AiSessionRecord> = TextMap::new();
    if let Some(rows) = json.members() {
        let ghost all = named_values(rows@);
        for i in 0..rows.len()
            invariant
                all == named_values(rows@),
                out@ == rows_in(all.take(i as int), read_session()),
        {
            proof {
                assert(all.take(i + 1).drop_last() =~= all.take(i as int));
                assert(all.take(i + 1).last() == all[i as int]);
            }
            if let Some(record) = AiSessionRecord::from_value(&rows[i].1) {
                out.insert(rows[i].0.clone(), record);
            }
        }
        assert(all.take(all.len() as int) =~= all);
    }
    out
}

/// The persisted review sessions by PR URL, given the text of their file where it
/// could be read.
pub fn load_sessions(text: &Option<String>) -> (r: TextMap<AiSessionRecord>)
    ensures
        r@ == table_in(text_in(*text), read_session()),
{
    if let Some(found) = text {
        if let Ok(json) = parse_json(found.as_str().as_bytes()) {
            return sessions_in(&json);
        }
    }
    TextMap::new()
}

/// The text to keep review sessions in, keyed by PR URL. Loading it gives the same
/// sessions, without those that lack their id.
pub fn save_sessions(sessions: &TextMap<AiSessionRecord>) -> (r: String)
    ensures
        r@ == rendered(table_value(sessions@, write_session())),
        table_in(Some(r@), read_session()) == kept_records(sessions@, session_has_id()),
{
    let n: usize = sessions.len();
    let ghost want = table_value(sessions@, write_session())->Object_0;
    let mut rows: Vec<(String, Json)> = Vec::new();
    for i in 0..n
        invariant
            n == sessions.keys().len(),
            want == table_value(sessions@, write_session())->Object_0,
            named_values(rows@) == want.take(i as int),
    {
        let ghost earlier = named_values(rows@);
        let row = (sessions.key_at(i).clone(), sessions.value_at(i).to_value());
        let ghost it = Member { name: row.0@, value: row.1@ };
        rows.push(row);
        assert(want[i as int] == it);
        assert(named_values(rows@) =~= earlier.push(it));
        assert(want.take(i + 1) =~= earlier.push(it));
    }
    assert(want.take(n as int) =~= want);
    let table = object_value(rows);
    proof {
        assert forall|m: SessionModel|
            is_row(#[trigger] write_session()(m)) && orderly(write_session()(m)) by {
            lemma_session_row(m);
        }
        lemma_is_table(sessions@, write_session());
        assert forall|m: SessionModel| read_session()(#[trigger] write_session()(m)) == if session_has_id()(m) {
            Some(m)
        } else {
            None
        } by {
            law_session_roundtrip(m);
        }
        lemma_table_back(sessions@, write_session(), read_session(), session_has_id());
    }
    render_json(&table)
}

/// The launched reviews by PR URL in a JSON value.
pub fn launched_reviews_in(json: &Json) -> (r: TextMap<LaunchedRecord>)
    ensures
        r@ == table_of(json@, read_launch()),
{
    let mut out: TextMap<LaunchedRecord> = TextMap::new();
    if let Some(rows) = json.members() {
        let ghost all = named_values(rows@);
        for i in 0..rows.len()
            invariant
                all == named_values(rows@),
                out@ == rows_in(all.take(i as int), read_launch()),
        {
            proof {
                assert(all.take(i + 1).drop_last() =~= all.take(i as int));
                assert(all.take(i + 1).last() == all[i as int]);
            }
            if let Some(record) = LaunchedRecord::from_value(&rows[i].1) {
                out.insert(rows[i].0.clone(), record);
            }
        }
        assert(all.take(all.len() as int) =~= all);
    }
    out
}

/// The persisted launched reviews by PR URL, given the text of their file where it
/// could be read.
pub fn read_launched(text: &Option<String>) -> (r: TextMap<LaunchedRecord>)
    ensures
        r@ == table_in(text_in(*text), read_launch()),
{
    if let Some(found) = text {
        if let Ok(json) = parse_json(found.as_str().as_bytes()) {
            return launched_reviews_in(&json);
        }
    }
    TextMap::new()
}

/// The text to keep launched reviews in, keyed by PR URL. Loading it gives the
/// same reviews, without those that lack their pane id.
pub fn save_launched_reviews(launched: &TextMap<LaunchedRecord>) -> (r: String)
    ensures
        r@ == rendered(table_value(launched@, write_launch())),
        table_in(Some(r@), read_launch()) == kept_records(launched@, launch_has_id()),
{
    let n: usize = launched.len();
    let ghost want = table_value(launched@, write_launch())->Object_0;
    let mut rows: Vec<(String, Json)> = Vec::new();
    for i in 0..n
        invariant
            n == launched.keys().len(),
            want == table_value(launched@, write_launch())->Object_0,
            named_values(rows@) == want.take(i as int),
    {
        let ghost earlier = named_values(rows@);
        let row = (launched.key_at(i).clone(), launched.value_at(i).to_value());
        let ghost it = Member { name: row.0@, value: row.1@ };
        rows.push(row);
        assert(want[i as int] == it);
        assert(named_values(rows@) =~= earlier.push(it));
        assert(want.take(i + 1) =~= earlier.push(it));
    }
    assert(want.take(n as int) =~= want);
    let table = object_value(rows);
    proof {
        assert forall|m: LaunchedModel|
            is_row(#[trigger] write_launch()(m)) && orderly(write_launch()(m)) by {
            lemma_launched_row(m);
        }
        lemma_is_table(launched@, write_launch());
        assert forall|m: LaunchedModel| read_launch()(#[trigger] write_launch()(m)) == if launch_has_id()(m) {
            Some(m)
        } else {
            None
        } by {
            law_launched_roundtrip(m);
        }
        lemma_table_back(launched@, write_launch(), read_launch(), launch_has_id());
    }
    render_json(&table)
}

/// A record of a finished review is read where there is a session id, with the time
/// and the path of the report as far as they are there; under these names.
pub proof fn law_session_read(j: JsonModel, r: SessionModel)
    ensures
        session_in(j) == Some(r) <==> {
            &&& j.at("session_id"@) == JsonModel::Text(r.session_id)
            &&& r.session_id.len() > 0
            &&& match j.at("completed_at"@) {
                JsonModel::Text(t) => r.completed_at == t,
                _ => r.completed_at == Seq::<char>::empty(),
            }
            &&& match j.at("report_path"@) {
                JsonModel::Text(t) => r.report_path == Some(t),
                _ => r.report_path is None,
            }
        },
{
}

/// A record of a launched review is read where it is one of herdr and has the id of
/// its pane, with the name of its tab as far as that is there.
pub proof fn law_launched_read(j: JsonModel, r: LaunchedModel)
    ensures
        launched_in(j) == Some(r) <==> {
            &&& j.at("backend"@) == JsonModel::Text("herdr"@)
            &&& j.at("pane_id"@) == JsonModel::Text(r.pane_id)
            &&& r.pane_id.len() > 0
            &&& match j.at("window_name"@) {
                JsonModel::Text(t) => r.window_name == t,
                _ => r.window_name == Seq::<char>::empty(),
            }
        },
{
}

/// A table has a row for each member that can be read, under the name of the member;
/// of two with one name the later counts. A value that is no object has none.
pub proof fn law_table_rows<M>(
    j: JsonModel,
    read: spec_fn(JsonModel) -> Option<M>,
    name: Seq<char>,
)
    ensures
        match j {
            JsonModel::Object(members) => {
                &&& table_of(j, read).contains_key(name) <==> exists|i: int|
                    0 <= i < members.len() && (#[trigger] members[i]).name == name && read(
                        members[i].value,
                    ) is Some
                &&& forall|i: int|
                    0 <= i < members.len() && (#[trigger] members[i]).name == name && read(
                        members[i].value,
                    ) is Some && (forall|k: int|
                        i < k < members.len() ==> (#[trigger] members[k]).name != name) ==> table_of(
                        j,
                        read,
                    )[name] == read(members[i].value)->0
            },
            _ => !table_of(j, read).contains_key(name),
        },
{
    if let JsonModel::Object(members) = j {
        lemma_rows(members, read, name);
    }
}

proof fn lemma_rows<M>(
    members: Seq<Member>,
    read: spec_fn(JsonModel) -> Option<M>,
    name: Seq<char>,
)
    ensures
        rows_in(members, read).contains_key(name) <==> exists|i: int|
            0 <= i < members.len() && (#[trigger] members[i]).name == name && read(
                members[i].value,
            ) is Some,
        forall|i: int|
            0 <= i < members.len() && (#[trigger] members[i]).name == name && read(
                members[i].value,
            ) is Some && (forall|k: int|
                i < k < members.len() ==> (#[trigger] members[k]).name != name) ==> rows_in(
                members,
                read,
            )[name] == read(members[i].value)->0,
    decreases members.len(),
{
    if members.len() > 0 {
        let less = members.drop_last();
        lemma_rows(less, read, name);
        if rows_in(less, read).contains_key(name) {
            let i = choose|i: int|
                0 <= i < less.len() && (#[trigger] less[i]).name == name && read(
                    less[i].value,
                ) is Some;
            assert(members[i].name == name);
        }
        if members.last().name == name && read(members.last().value) is Some {
            assert(members[members.len() - 1].name == name);
        }
        if exists|i: int|
            0 <= i < members.len() && (#[trigger] members[i]).name == name && read(
                members[i].value,
            ) is Some {
            let i = choose|i: int|
                0 <= i < members.len() && (#[trigger] members[i]).name == name && read(
                    members[i].value,
                ) is Some;
            if i < less.len() {
                assert(less[i].name == name);
            }
        }
        assert forall|i: int|
            0 <= i < members.len() && (#[trigger] members[i]).name == name && read(
                members[i].value,
            ) is Some && (forall|k: int|
                i < k < members.len() ==> (#[trigger] members[k]).name != name) implies rows_in(
            members,
            read,
        )[name] == read(members[i].value)->0 by {
            if i < less.len() {
                assert(less[i].name == name);
                assert(members[members.len() - 1].name != name);
                assert forall|k: int| i < k < less.len() implies (#[trigger] less[k]).name
                    != name by {
                    assert(members[k].name != name);
                }
            }
        }
    }
}

} // verus!
