//! Review reports on disk, as `<repo>/<PR number>-<YYYYMMDD>-<HHMMSS>.html`.
use vstd::prelude::*;

use crate::json::text_in;
use crate::lists::{lemma_filter_map_places, lemma_filter_places};
use crate::number::{all_digits, is_digit, only_digits};
use crate::order::{before, lemma_asymmetric};
use crate::rank::{
    key_models, lemma_rankable, place_models, precedes, rank, ranked, ranking, KeyModel, SortKey,
};
use crate::resolve::{below, join_path};
use crate::text::{cat3, chars, cut_once, from_chars, has_suffix, split_once};
use crate::textmap::TextMap;

verus! {

/// A review report on disk.
#[derive(Clone, Debug, PartialEq, Eq)]
pub struct ReviewReport {
    /// Full path of the HTML file.
    pub path: String,
    /// Short timestamp label for the button (e.g. `07/20 13:22`).
    pub label: String,
}

/// What a review report is.
#[verifier::ext_equal]
pub struct ReportModel {
    pub path: Seq<char>,
    pub label: Seq<char>,
}

impl View for ReviewReport {
    type V = ReportModel;

    open spec fn view(&self) -> ReportModel {
        ReportModel { path: self.path@, label: self.label@ }
    }
}

/// The directory that holds the reports of a home directory, given the name of the
/// AI command.
pub open spec fn logs_dir(home: Seq<char>, name: Seq<char>) -> Seq<char> {
    below(home, "."@ + name + "/pr-review-logs"@)
}

/// The directory that holds the reports, where there is a home directory.
pub fn review_logs_dir(home: &Option<String>, name: &str) -> (r: Option<String>)
    ensures
        text_in(r) == (match text_in(*home) {
            Some(home) => Some(logs_dir(home, name@)),
            None => None,
        }),
{
    match home {
        Some(home) => Some(
            join_path(home.as_str(), cat3(".", name, "/pr-review-logs").as_str()),
        ),
        None => None,
    }
}

/// Whether a text has the form `YYYYMMDD-HHMMSS`: eight digits, a dash, six digits.
pub open spec fn is_stamp(stamp: Seq<char>) -> bool {
    &&& stamp.len() == 15
    &&& all_digits(stamp.take(8))
    &&& stamp[8] == '-'
    &&& all_digits(stamp.skip(9))
}

/// The label of a timestamp `YYYYMMDD-HHMMSS`: its month, day, hour and minute. A
/// text of another form is its own label.
pub open spec fn stamp_label(stamp: Seq<char>) -> Seq<char> {
    if is_stamp(stamp) {
        stamp.subrange(4, 6) + "/"@ + stamp.subrange(6, 8) + " "@ + stamp.subrange(9, 11) + ":"@
            + stamp.subrange(11, 13)
    } else {
        stamp
    }
}

fn label_of(stamp: &str) -> (r: String)
    ensures
        r@ == stamp_label(stamp@),
{
    let all = chars(stamp);
    if all.len() != 15 || all[8] != '-' {
        return stamp.to_owned();
    }
    let day = from_chars(&all, 0, 8);
    let time = from_chars(&all, 9, 15);
    assert(day@ =~= stamp@.take(8));
    assert(time@ =~= stamp@.skip(9));
    if !only_digits(day.as_str()) || !only_digits(time.as_str()) {
        return stamp.to_owned();
    }
    let date = cat3(from_chars(&all, 4, 6).as_str(), "/", from_chars(&all, 6, 8).as_str());
    let hour = cat3(date.as_str(), " ", from_chars(&all, 9, 11).as_str());
    cat3(hour.as_str(), ":", from_chars(&all, 11, 13).as_str())
}

/// The PR number and the label of a report's stem; none where the stem does not
/// start with a PR number.
pub open spec fn stem_parts(stem: Seq<char>) -> Option<(Seq<char>, Seq<char>)> {
    match cut_once(stem, '-') {
        Some(parts) => if parts.0.len() == 0 || !all_digits(parts.0) {
            None
        } else {
            Some((parts.0, stamp_label(parts.1)))
        },
        None => None,
    }
}

/// `12358-20260720-132207` -> the PR number and a short timestamp label
/// (`07/20 13:22`). None when the stem doesn't start with a PR number.
pub fn parse_report_stem(stem: &str) -> (r: Option<(String, String)>)
    ensures
        match r {
            Some(parts) => stem_parts(stem@) == Some((parts.0@, parts.1@)),
            None => stem_parts(stem@) is None,
        },
{
    match split_once(stem, '-') {
        Some((number, stamp)) => {
            if number.as_str().is_empty() || !only_digits(number.as_str()) {
                return None;
            }
            let label = label_of(stamp.as_str());
            Some((number, label))
        },
        None => None,
    }
}

/// A file below the directory of the reports.
pub struct ReportFile {
    /// The name of the directory it stands in.
    pub repo: String,
    /// Its own name.
    pub name: String,
    /// Its full path.
    pub path: String,
}

/// What is known of a file below the directory of the reports.
#[verifier::ext_equal]
pub struct FileModel {
    pub repo: Seq<char>,
    pub name: Seq<char>,
    pub path: Seq<char>,
}

impl View for ReportFile {
    type V = FileModel;

    open spec fn view(&self) -> FileModel {
        FileModel { repo: self.repo@, name: self.name@, path: self.path@ }
    }
}

/// The files of a list.
pub open spec fn file_models(files: Seq<ReportFile>) -> Seq<FileModel> {
    files.map_values(|f: ReportFile| f@)
}

/// What stands before the extension `html` of a file's name; none for a name with
/// another extension or with none. A leading dot starts no extension.
pub open spec fn html_stem(name: Seq<char>) -> Option<Seq<char>> {
    if ".html"@.is_suffix_of(name) && name.len() > 5 {
        Some(name.take(name.len() - 5))
    } else {
        None
    }
}

fn stem_of(name: &str) -> (r: Option<String>)
    ensures
        text_in(r) == html_stem(name@),
{
    let all = chars(name);
    if has_suffix(name, ".html") && all.len() > 5 {
        let stem = from_chars(&all, 0, all.len() - 5);
        assert(stem@ =~= name@.take(name@.len() - 5));
        Some(stem)
    } else {
        None
    }
}

/// A report that was found: the PR it belongs to, its stem, and what it is.
#[verifier::ext_equal]
pub struct FoundModel {
    pub key: Seq<char>,
    pub stem: Seq<char>,
    pub report: ReportModel,
}

struct Found {
    key: String,
    stem: String,
    report: ReviewReport,
}

impl View for Found {
    type V = FoundModel;

    closed spec fn view(&self) -> FoundModel {
        FoundModel { key: self.key@, stem: self.stem@, report: self.report@ }
    }
}

spec fn found_models(list: Seq<Found>) -> Seq<FoundModel> {
    list.map_values(|f: Found| f@)
}

/// The report in a file; none where its name is not that of a report.
pub open spec fn report_of(file: FileModel) -> Option<FoundModel> {
    match html_stem(file.name) {
        Some(stem) => match stem_parts(stem) {
            Some(parts) => Some(
                FoundModel {
                    key: file.repo + "#"@ + parts.0,
                    stem,
                    report: ReportModel { path: file.path, label: parts.1 },
                },
            ),
            None => None,
        },
        None => None,
    }
}

/// The reports among files, in the order of the files.
pub open spec fn found_in(files: Seq<FileModel>) -> Seq<FoundModel> {
    files.filter_map(|f: FileModel| report_of(f))
}

/// The reports of one PR among those found.
pub open spec fn found_for(found: Seq<FoundModel>, key: Seq<char>) -> Seq<FoundModel> {
    found.filter(|f: FoundModel| f.key == key)
}

/// What reports are sorted by.
pub open spec fn stem_keys(found: Seq<FoundModel>) -> Seq<KeyModel> {
    found.map_values(|f: FoundModel| KeyModel { rank: 0, text: f.stem })
}

/// The reports of one PR, that with the latest stem first. The zero-padded
/// timestamp makes this order chronological.
pub open spec fn reports_for(found: Seq<FoundModel>, key: Seq<char>) -> Seq<ReportModel> {
    let mine = found_for(found, key);
    ranked(mine, stem_keys(mine), true).map_values(|f: FoundModel| f.report)
}

/// The PRs with reports among those found.
pub open spec fn reported(found: Seq<FoundModel>) -> Set<Seq<char>> {
    Set::new(|k: Seq<char>| exists|i: int| 0 <= i < found.len() && (#[trigger] found[i]).key == k)
}

/// The reports by PR.
pub open spec fn report_table(files: Seq<FileModel>) -> Map<Seq<char>, Seq<ReportModel>> {
    let found = found_in(files);
    Map::new(|k: Seq<char>| reported(found).contains(k), |k: Seq<char>| reports_for(found, k))
}

/// The reports of one PR.
pub struct ReportList {
    pub reports: Vec<ReviewReport>,
}

/// The reports of a list.
pub open spec fn report_models(list: Seq<ReviewReport>) -> Seq<ReportModel> {
    list.map_values(|r: ReviewReport| r@)
}

impl View for ReportList {
    type V = Seq<ReportModel>;

    open spec fn view(&self) -> Seq<ReportModel> {
        report_models(self.reports@)
    }
}

fn find_report(file: &ReportFile) -> (r: Option<Found>)
    ensures
        match r {
            Some(f) => report_of(file@) == Some(f@),
            None => report_of(file@) is None,
        },
{
    match stem_of(file.name.as_str()) {
        Some(stem) => match parse_report_stem(stem.as_str()) {
            Some((number, label)) => Some(
                Found {
                    key: cat3(file.repo.as_str(), "#", number.as_str()),
                    stem,
                    report: ReviewReport { path: file.path.clone(), label },
                },
            ),
            None => None,
        },
        None => None,
    }
}

fn find_reports(files: &Vec<ReportFile>) -> (r: Vec<Found>)
    ensures
        found_models(r@) == found_in(file_models(files@)),
{
    let ghost all = file_models(files@);
    let ghost read = |f: FileModel| report_of(f);
    let mut out: Vec<Found> = Vec::new();
    proof {
        reveal(Seq::filter_map);
        assert(all.take(0) =~= Seq::empty());
    }
    for i in 0..files.len()
        invariant
            all == file_models(files@),
            read == (|f: FileModel| report_of(f)),
            found_models(out@) == all.take(i as int).filter_map(read),
    {
        let ghost earlier = found_models(out@);
        proof {
            all.lemma_filter_map_take_succ(read, i as int);
            assert(all[i as int] == files@[i as int]@);
        }
        match find_report(&files[i]) {
            Some(f) => {
                let ghost it = f@;
                out.push(f);
                assert(found_models(out@) =~= earlier.push(it));
            },
            None => {},
        }
        assert(found_models(out@) =~= all.take(i + 1).filter_map(read));
    }
    assert(all.take(all.len() as int) =~= all);
    out
}

fn reports_of(found: &Vec<Found>, key: &str) -> (r: ReportList)
    ensures
        r@ == reports_for(found_models(found@), key@),
{
    let ghost all = found_models(found@);
    let ghost keep = |f: FoundModel| f.key == key@;
    let ghost mine = found_for(all, key@);
    let mut places: Vec<usize> = Vec::new();
    let mut keys: Vec<SortKey> = Vec::new();
    proof {
        reveal(Seq::filter);
        assert(all.take(0) =~= Seq::empty());
    }
    for i in 0..found.len()
        invariant
            all == found_models(found@),
            keep == (|f: FoundModel| f.key == key@),
            places@.len() == keys@.len(),
            places@.len() == all.take(i as int).filter(keep).len(),
            forall|j: int|
                0 <= j < places@.len() ==> (#[trigger] places@[j]) < found@.len()
                    && found@[places@[j] as int]@ == all.take(i as int).filter(keep)[j],
            key_models(keys@) == stem_keys(all.take(i as int).filter(keep)),
    {
        let ghost earlier = key_models(keys@);
        let ghost kept = all.take(i as int).filter(keep);
        proof {
            reveal(Seq::filter);
            assert(all.take(i + 1).drop_last() =~= all.take(i as int));
            assert(all.take(i + 1).last() == found@[i as int]@);
        }
        if crate::text::same(found[i].key.as_str(), key) {
            assert(all.take(i + 1).filter(keep) == kept.push(found@[i as int]@));
            places.push(i);
            keys.push(SortKey { rank: 0, text: found[i].stem.clone() });
            assert(key_models(keys@) =~= earlier.push(
                KeyModel { rank: 0, text: found@[i as int].stem@ },
            ));
            assert(stem_keys(kept.push(found@[i as int]@)) =~= earlier.push(
                KeyModel { rank: 0, text: found@[i as int].stem@ },
            ));
        } else {
            assert(all.take(i + 1).filter(keep) == kept);
        }
    }
    assert(all.take(all.len() as int) =~= all);
    assert(mine == all.filter(keep));
    let order = rank(&keys, true);
    let ghost want = reports_for(all, key@);
    let mut reports: Vec<ReviewReport> = Vec::new();
    for i in 0..order.len()
        invariant
            all == found_models(found@),
            mine == found_for(all, key@),
            want == reports_for(all, key@),
            order@.len() == places@.len(),
            order@.len() == mine.len(),
            forall|j: int| 0 <= j < order@.len() ==> (#[trigger] order@[j]) < places@.len(),
            place_models(order@) == ranking(stem_keys(mine), true),
            forall|j: int|
                0 <= j < places@.len() ==> (#[trigger] places@[j]) < found@.len()
                    && found@[places@[j] as int]@ == mine[j],
            report_models(reports@) == want.take(i as int),
    {
        let ghost earlier = report_models(reports@);
        let at: usize = places[order[i]];
        let report = ReviewReport {
            path: found[at].report.path.clone(),
            label: found[at].report.label.clone(),
        };
        let ghost it = report@;
        reports.push(report);
        proof {
            assert(place_models(order@)[i as int] == order@[i as int] as int);
            assert(ranked(mine, stem_keys(mine), true)[i as int] == mine[order@[i as int] as int]);
            assert(want[i as int] == it);
            assert(report_models(reports@) =~= earlier.push(it));
            assert(want.take(i + 1) =~= earlier.push(it));
        }
    }
    assert(want.len() == place_models(order@).len());
    assert(want.take(want.len() as int) =~= want);
    ReportList { reports }
}

/// All review reports among the files on disk, keyed by `repo#number` (the short
/// PR id). A PR can have multiple reports; they are ordered newest first.
pub fn load_review_reports(files: &Vec<ReportFile>) -> (r: TextMap<ReportList>)
    ensures
        r@ == report_table(file_models(files@)),
{
    let found = find_reports(files);
    let ghost all = found_models(found@);
    let mut out: TextMap<ReportList> = TextMap::new();
    for i in 0..found.len()
        invariant
            all == found_models(found@),
            forall|k: Seq<char>|
                reported(all.take(i as int)).contains(k) <==> #[trigger] out@.contains_key(k),
            forall|k: Seq<char>| #[trigger] out@.contains_key(k) ==> out@[k] == reports_for(all, k),
    {
        let ghost was = out@;
        let list = reports_of(&found, found[i].key.as_str());
        out.insert(found[i].key.clone(), list);
        proof {
            let now = all.take(i + 1);
            let less = all.take(i as int);
            assert(now[i as int] == found@[i as int]@);
            assert forall|k: Seq<char>|
                reported(now).contains(k) <==> #[trigger] out@.contains_key(k) by {
                if reported(now).contains(k) {
                    let j = choose|j: int| 0 <= j < now.len() && (#[trigger] now[j]).key == k;
                    if j < i {
                        assert(less[j].key == k);
                        assert(reported(less).contains(k));
                        assert(was.contains_key(k));
                    }
                }
                if out@.contains_key(k) {
                    if k == found@[i as int].key@ {
                        assert(now[i as int].key == k);
                    } else {
                        assert(was.contains_key(k));
                        assert(reported(less).contains(k));
                        let j = choose|j: int| 0 <= j < less.len() && (#[trigger] less[j]).key == k;
                        assert(now[j].key == k);
                    }
                }
            }
        }
    }
    assert(all.take(all.len() as int) =~= all);
    assert(out@ =~= report_table(file_models(files@)));
    out
}

/// The reports of a PR are those found for it, each of them, and none has a later
/// stem than one before it.
pub proof fn law_reports_newest_first(found: Seq<FoundModel>, key: Seq<char>)
    ensures
        ({
            let mine = found_for(found, key);
            let list = ranked(mine, stem_keys(mine), true);
            &&& reports_for(found, key) == list.map_values(|f: FoundModel| f.report)
            &&& list.len() == mine.len()
            &&& forall|i: int, j: int|
                0 <= i < j < list.len() ==> !before(
                    (#[trigger] list[i]).stem,
                    (#[trigger] list[j]).stem,
                )
            &&& forall|f: FoundModel|
                #![trigger list.contains(f)]
                #![trigger found.contains(f)]
                list.contains(f) <==> found.contains(f) && f.key == key
        }),
{
    let keep = |f: FoundModel| f.key == key;
    let mine = found_for(found, key);
    let keys = stem_keys(mine);
    let places = ranking(keys, true);
    let list = ranked(mine, keys, true);
    lemma_rankable(keys, true);
    crate::lists::lemma_filter_members(found, keep);
    assert forall|i: int, j: int| 0 <= i < j < list.len() implies !before(
        (#[trigger] list[i]).stem,
        (#[trigger] list[j]).stem,
    ) by {
        let p = places[i];
        let q = places[j];
        assert(places.contains(p) && places.contains(q));
        assert(precedes(keys, true, p, q));
        if before(mine[q].stem, mine[p].stem) {
            lemma_asymmetric(mine[q].stem, mine[p].stem);
        }
    }
    assert forall|f: FoundModel|
        #![trigger list.contains(f)]
        #![trigger found.contains(f)]
        list.contains(f) <==> found.contains(f) && f.key == key by {
        if list.contains(f) {
            let i = choose|i: int| 0 <= i < list.len() && list[i] == f;
            assert(places.contains(places[i]));
            assert(mine[places[i]] == f);
            assert(mine.contains(f));
        }
        if found.contains(f) && f.key == key {
            assert(mine.contains(f));
            let p = choose|p: int| 0 <= p < mine.len() && mine[p] == f;
            assert(places.contains(p));
            let i = choose|i: int| 0 <= i < places.len() && places[i] == p;
            assert(list[i] == f);
        }
    }
}

/// Whether a file is a report of a pull request: its name is the number, a hyphen,
/// what follows, and `.html`; the pull request is that of the directory with that
/// number.
pub open spec fn is_report_on(file: FileModel, key: Seq<char>, rest: Seq<char>) -> bool {
    exists|number: Seq<char>|
        {
            &&& number.len() > 0
            &&& all_digits(number)
            &&& file.name == #[trigger] (number.push('-') + rest + ".html"@)
            &&& key == file.repo.push('#') + number
        }
}

/// A file counts as a report exactly where its name has the form of one. It is a
/// report of the pull request that its directory and its number name, with its own
/// path, and what follows the number for a label.
pub proof fn law_report_file(file: FileModel, key: Seq<char>, rest: Seq<char>)
    ensures
        is_report_on(file, key, rest) ==> report_of(file) == Some(
            FoundModel {
                key,
                stem: file.name.take(file.name.len() - 5),
                report: ReportModel { path: file.path, label: stamp_label(rest) },
            },
        ),
        report_of(file) matches Some(found) ==> exists|t: Seq<char>| #[trigger]
            is_report_on(file, found.key, t) && found.report.path == file.path
                && found.report.label == stamp_label(t),
{
    reveal_strlit(".html");
    reveal_strlit("#");
    let html = ".html"@;
    assert(html.len() == 5);
    if is_report_on(file, key, rest) {
        let number = choose|number: Seq<char>|
            {
                &&& number.len() > 0
                &&& all_digits(number)
                &&& file.name == #[trigger] (number.push('-') + rest + html)
                &&& key == file.repo.push('#') + number
            };
        let name = file.name;
        let stem = number.push('-') + rest;
        assert(name.take(name.len() - 5) =~= stem);
        assert(name.subrange(name.len() - 5, name.len() as int) =~= html);
        assert(html_stem(name) == Some(stem));
        assert forall|j: int| 0 <= j < number.len() implies stem[j] != '-' by {
            assert(stem[j] == number[j]);
            assert(is_digit(number[j]));
        }
        crate::text::lemma_position_at(stem, '-', number.len() as int);
        assert(stem.take(number.len() as int) =~= number);
        assert(stem.skip(number.len() as int + 1) =~= rest);
        assert(file.repo + "#"@ =~= file.repo.push('#'));
    }
    if let Some(found) = report_of(file) {
        let stem = html_stem(file.name)->0;
        let parts = cut_once(stem, '-')->0;
        crate::text::law_cut_once(stem, '-');
        let number = parts.0;
        let t = parts.1;
        assert(number + seq!['-'] + t =~= number.push('-') + t);
        assert(file.name =~= stem + html) by {
            let n = file.name.len();
            assert(file.name.subrange(n - 5, n as int) =~= html);
        }
        assert(file.name == number.push('-') + t + html);
        assert(file.repo + "#"@ =~= file.repo.push('#'));
        assert(is_report_on(file, found.key, t));
    }
}

/// A time of the form `YYYYMMDD-HHMMSS` is shown as month, day, hour and minute; any
/// other text as it is.
pub proof fn law_stamp_shown(
    year: Seq<char>,
    month: Seq<char>,
    day: Seq<char>,
    hour: Seq<char>,
    minute: Seq<char>,
    second: Seq<char>,
    other: Seq<char>,
)
    requires
        year.len() == 4,
        month.len() == 2 && day.len() == 2 && hour.len() == 2 && minute.len() == 2 && second.len()
            == 2,
        all_digits(year + month + day + hour + minute + second),
    ensures
        stamp_label((year + month + day).push('-') + (hour + minute + second)) == month.push('/')
            + day.push(' ') + hour.push(':') + minute,
        other.len() != 15 || other[8] != '-' ==> stamp_label(other) == other,
        stamp_label(other) != other ==> forall|i: int|
            0 <= i < other.len() && i != 8 ==> is_digit(#[trigger] other[i]),
{
    reveal_strlit("/");
    reveal_strlit(" ");
    reveal_strlit(":");
    let date = year + month + day;
    let time = hour + minute + second;
    let stamp = date.push('-') + time;
    let every = year + month + day + hour + minute + second;
    assert forall|i: int| 0 <= i < 8 implies is_digit(#[trigger] stamp.take(8)[i]) by {
        assert(stamp.take(8)[i] == every[i]);
    }
    assert forall|i: int| 0 <= i < 6 implies is_digit(#[trigger] stamp.skip(9)[i]) by {
        assert(stamp.skip(9)[i] == every[8 + i]);
    }
    assert(stamp.subrange(4, 6) =~= month);
    assert(stamp.subrange(6, 8) =~= day);
    assert(stamp.subrange(9, 11) =~= hour);
    assert(stamp.subrange(11, 13) =~= minute);
    assert(stamp_label(stamp) =~= month.push('/') + day.push(' ') + hour.push(':') + minute);
    if stamp_label(other) != other {
        assert forall|i: int| 0 <= i < other.len() && i != 8 implies is_digit(
            #[trigger] other[i],
        ) by {
            if i < 8 {
                assert(other.take(8)[i] == other[i]);
            } else {
                assert(other.skip(9)[i - 9] == other[i]);
            }
        }
    }
}

/// Each pull request has the reports that are files of its own, all of them, the one
/// with the latest name first; and none has a list without reports.
pub proof fn law_reports_listed(files: Seq<FileModel>, key: Seq<char>)
    ensures
        ({
            let table = report_table(files);
            &&& table.contains_key(key) <==> exists|i: int, rest: Seq<char>|
                0 <= i < files.len() && #[trigger] is_report_on(files[i], key, rest)
            &&& forall|i: int, rest: Seq<char>|
                0 <= i < files.len() && #[trigger] is_report_on(files[i], key, rest)
                    ==> table[key].contains(
                    ReportModel { path: files[i].path, label: stamp_label(rest) },
                )
            &&& table.contains_key(key) ==> exists|from: Seq<int>|
                {
                    &&& #[trigger] from.no_duplicates()
                    &&& from.len() == table[key].len()
                    &&& forall|k: int|
                        0 <= k < from.len() ==> 0 <= #[trigger] from[k] < files.len() && table[key][k].path
                            == files[from[k]].path
                    &&& forall|j: int, k: int|
                        0 <= j < k < from.len() ==> !before(
                            files[#[trigger] from[j]].name.take(files[from[j]].name.len() - 5),
                            files[#[trigger] from[k]].name.take(files[from[k]].name.len() - 5),
                        )
                }
        }),
{
    let found = found_in(files);
    let table = report_table(files);
    let f = |x: FileModel| report_of(x);
    let places = lemma_filter_map_places(files, f);
    assert(found == files.filter_map(f));
    let keep = |x: FoundModel| x.key == key;
    let mine = found_for(found, key);
    let own = lemma_filter_places(found, keep);
    assert(mine == found.filter(keep));
    let keys = stem_keys(mine);
    let order = crate::rank::ranking(keys, true);
    crate::rank::lemma_rankable(keys, true);
    law_reports_newest_first(found, key);
    let list = reports_for(found, key);
    assert forall|i: int, rest: Seq<char>|
        0 <= i < files.len() && #[trigger] is_report_on(files[i], key, rest) implies exists|k: int|
        0 <= k < found.len() && (#[trigger] found[k]).key == key && found[k].report == (ReportModel {
            path: files[i].path,
            label: stamp_label(rest),
        }) by {
        law_report_file(files[i], key, rest);
        assert(f(files[i]) == report_of(files[i]));
        assert(places.contains(i));
        let k = choose|k: int| 0 <= k < places.len() && places[k] == i;
        assert(f(files[places[k]]) == Some(found[k]));
        assert(found[k].key == key);
    }
    if table.contains_key(key) {
        let k = choose|k: int| 0 <= k < found.len() && (#[trigger] found[k]).key == key;
        let i = places[k];
        assert(places.contains(i));
        assert(f(files[i]) == Some(found[k]));
        law_report_file(files[i], key, Seq::empty());
        let t = choose|t: Seq<char>| #[trigger]
            is_report_on(files[i], found[k].key, t) && found[k].report.path == files[i].path
                && found[k].report.label == stamp_label(t);
        assert(is_report_on(files[i], key, t));
        let from = Seq::new(order.len(), |n: int| places[own[order[n]]]);
        assert forall|n: int| 0 <= n < order.len() implies 0 <= #[trigger] order[n] < mine.len() by {
            assert(order.contains(order[n]));
        }
        assert forall|n: int| 0 <= n < own.len() implies 0 <= #[trigger] own[n] < found.len() by {
            assert(own.contains(own[n]));
        }
        assert forall|n: int| 0 <= n < from.len() implies 0 <= #[trigger] from[n] < files.len()
            && list[n].path == files[from[n]].path && mine[order[n]].stem == files[from[n]].name.take(
            files[from[n]].name.len() - 5,
        ) by {
            let o = own[order[n]];
            assert(places.contains(places[o]));
            assert(f(files[places[o]]) == Some(found[o]));
            assert(found[o] == mine[order[n]]);
        }
        assert forall|a: int, b: int| 0 <= a < b < from.len() implies #[trigger] from[a]
            != #[trigger] from[b] && !before(
            files[from[a]].name.take(files[from[a]].name.len() - 5),
            files[from[b]].name.take(files[from[b]].name.len() - 5),
        ) by {
            assert(crate::rank::precedes(keys, true, order[a], order[b]));
            crate::order::lemma_irreflexive(keys[order[a]].text);
            assert(order[a] != order[b]);
            assert(own[order[a]] != own[order[b]]) by {
                if order[a] < order[b] {
                    assert(own[order[a]] < own[order[b]]);
                } else {
                    assert(own[order[b]] < own[order[a]]);
                }
            }
            let x = own[order[a]];
            let y = own[order[b]];
            assert(places[x] != places[y]) by {
                if x < y {
                    assert(places[x] < places[y]);
                } else {
                    assert(places[y] < places[x]);
                }
            }
            assert(from[a] == places[x] && from[b] == places[y]);
            if before(keys[order[b]].text, keys[order[a]].text) {
                crate::order::lemma_asymmetric(keys[order[b]].text, keys[order[a]].text);
            }
        }
        assert(from.no_duplicates());
    }
    assert forall|i: int, rest: Seq<char>|
        0 <= i < files.len() && #[trigger] is_report_on(files[i], key, rest) implies list.contains(
        ReportModel { path: files[i].path, label: stamp_label(rest) },
    ) && table.contains_key(key) by {
        let k = choose|k: int|
            0 <= k < found.len() && (#[trigger] found[k]).key == key && found[k].report == (
            ReportModel { path: files[i].path, label: stamp_label(rest) });
        assert(reported(found).contains(key));
        assert(keep(found[k]));
        assert(own.contains(k));
        let n = choose|n: int| 0 <= n < own.len() && own[n] == k;
        assert(mine[n] == found[k]);
        assert(order.contains(n));
        let m = choose|m: int| 0 <= m < order.len() && order[m] == n;
        assert(list[m] == found[k].report);
    }
}

/// Reports are kept in `pr-review-logs`, in the directory of the program below the home
/// directory.
pub proof fn law_logs_dir(home: Seq<char>, name: Seq<char>)
    requires
        home.len() > 0,
        home.last() != '/',
    ensures
        logs_dir(home, name) == home + "/."@ + name + "/pr-review-logs"@,
{
    reveal_strlit("/.");
    reveal_strlit("/");
    reveal_strlit(".");
    assert(logs_dir(home, name) =~= home + "/."@ + name + "/pr-review-logs"@);
}

/// A file is read as a report where its name ends in `.html` behind a stem.
pub proof fn law_html_stem(name: Seq<char>, stem: Seq<char>)
    ensures
        html_stem(name) == Some(stem) <==> stem.len() > 0 && name == stem + ".html"@,
        html_stem(".html"@) is None,
{
    reveal_strlit(".html");
    if stem.len() > 0 && name == stem + ".html"@ {
        assert(name.subrange(name.len() - 5, name.len() as int) =~= ".html"@);
        assert(name.take(name.len() - 5) =~= stem);
    }
    if html_stem(name) == Some(stem) {
        assert(name =~= stem + ".html"@);
    }
}

} // verus!
