use gh_review_insight::reports::{
    load_review_reports, parse_report_stem, review_logs_dir, ReportFile,
};

#[test]
fn report_stem_yields_pr_number_and_label() {
    let parts = |a: &str, b: &str| Some((a.to_string(), b.to_string()));
    assert_eq!(parse_report_stem("12358-20260720-132207"), parts("12358", "07/20 13:22"));
    // Unexpected timestamp shapes fall back to the raw text.
    assert_eq!(parse_report_stem("7-x"), parts("7", "x"));
    // Files not starting with a PR number are skipped.
    assert_eq!(parse_report_stem("_general"), None);
    assert_eq!(parse_report_stem("notes-20260720"), None);
}

#[test]
fn stamps_of_another_shape_are_their_own_label() {
    let label = |stem: &str| parse_report_stem(stem).unwrap().1;
    assert_eq!(label("1-20260720-132207"), "07/20 13:22");
    for stamp in [
        "", "abcdefghijklm", "20260720-1322", "20260720-1322070", "20260720_132207",
        "2026072x-132207", "20260720-13220x", "2026漢0720-1322", "２0260720-132207",
    ] {
        assert_eq!(label(&format!("7-{stamp}")), stamp);
    }
    assert_eq!(parse_report_stem("-x"), None);
    assert_eq!(parse_report_stem("12"), None);
}

fn file(repo: &str, name: &str) -> ReportFile {
    ReportFile { repo: repo.to_string(), name: name.to_string(), path: format!("/l/{repo}/{name}") }
}

#[test]
fn reports_are_grouped_and_newest_first() {
    let files = vec![
        file("widgets", "42-20260720-132207.html"),
        file("widgets", "42-20260722-080000.html"),
        file("widgets", "7-20260101-000000.html"),
        file("widgets", "42-20260721-000000.md"),
        file("widgets", ".html"),
        file("widgets", "notes.html"),
        file("other", "42-20260101-000000.html"),
    ];
    let reports = load_review_reports(&files);
    assert_eq!(reports.len(), 3);
    let list = &reports.get("widgets#42").unwrap().reports;
    let labels: Vec<&str> = list.iter().map(|r| r.label.as_str()).collect();
    assert_eq!(labels, ["07/22 08:00", "07/20 13:22"]);
    assert_eq!(list[1].path, "/l/widgets/42-20260720-132207.html");
    assert_eq!(reports.get("widgets#7").unwrap().reports.len(), 1);
    assert_eq!(reports.get("other#42").unwrap().reports.len(), 1);
    assert!(reports.get("widgets#1").is_none());
}

#[test]
fn extensions_are_those_of_paths() {
    for name in ["a.html", ".html", "..html", "a.b.html", "html", "a.htm", "1-x.html", "1-x.HTML"] {
        let path = std::path::Path::new(name);
        let is_html = path.extension().and_then(|e| e.to_str()) == Some("html");
        let stem = path.file_stem().unwrap().to_str().unwrap();
        let want = is_html && parse_report_stem(stem).is_some();
        assert_eq!(load_review_reports(&vec![file("r", name)]).len() == 1, want, "{name}");
    }
}

#[test]
fn reports_stand_below_the_home_directory() {
    let home = Some("/home/u".to_string());
    assert_eq!(review_logs_dir(&home, "ai"), Some("/home/u/.ai/pr-review-logs".to_string()));
    assert_eq!(review_logs_dir(&None, "ai"), None);
}
