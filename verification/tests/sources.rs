use aws_creds_scanner::sources::hexpm::{self, HexPmRelease, HexPmResponse, HexPmSource};
use aws_creds_scanner::sources::paging::Pages;
use aws_creds_scanner::sources::pypi::{
    group_releases, is_skipped_package, matching_packages, parse_changelog_item,
    release_not_found, select_changelog_items, shuffled_packages, ChangelogItem, PackageUrl,
    PyPiResponse, PyPiSource, XmlValue,
};
use aws_creds_scanner::sources::rubygems::{page_url, RubyGemsResponse, RubyGemsSource};
use aws_creds_scanner::sources::{
    unique_sources, PackageToProcess, SourceError, SourceStats, SourceType,
};
use aws_creds_scanner::time::Timestamp;

fn s(x: &str) -> String {
    x.to_string()
}

fn entry(name: &str, version: &str, ts: i32, action: &str, serial: i32) -> Vec<XmlValue> {
    vec![
        XmlValue::String(s(name)),
        XmlValue::String(s(version)),
        XmlValue::Int(ts),
        XmlValue::String(s(action)),
        XmlValue::Int(serial),
    ]
}

fn package(url: &str, name: &str, version: &str, source: SourceType) -> PackageToProcess {
    PackageToProcess::new(s(name), s(version), s(url), source)
}

#[test]
fn report_paths_per_registry() {
    assert_eq!(SourceType::PyPi.report_path(), "keys/pypi");
    assert_eq!(SourceType::RubyGems.report_path(), "keys/rubygems");
    assert_eq!(SourceType::HexPm.report_path(), "keys/elixir");
}

#[test]
fn stats_count_searched_packages() {
    let mut stats = SourceStats::new();
    stats.add_packages_searched(3);
    stats.add_packages_searched(4);
    assert_eq!(stats.packages_searched(), 7);
}

#[test]
fn unique_sources_keep_first_occurrences() {
    let input = vec![
        SourceType::HexPm,
        SourceType::PyPi,
        SourceType::HexPm,
        SourceType::RubyGems,
        SourceType::PyPi,
    ];
    assert_eq!(
        unique_sources(&input),
        vec![SourceType::HexPm, SourceType::PyPi, SourceType::RubyGems]
    );
}

#[test]
fn file_name_is_last_path_segment() {
    let p = package(
        "https://files.pythonhosted.org/packages/ab/cd/demo-1.0.tar.gz",
        "demo",
        "1.0",
        SourceType::PyPi,
    );
    assert_eq!(p.file_name(), "demo-1.0.tar.gz");
    assert_eq!(p.try_file_name(), Some(s("demo-1.0.tar.gz")));
    let q = package("https://example.com/dir/?x=1", "demo", "1.0", SourceType::PyPi);
    assert_eq!(q.file_name(), "");
}

#[test]
fn file_name_absent_without_path_segments() {
    let p = package("mailto:someone@example.com", "demo", "1.0", SourceType::RubyGems);
    assert!(!p.has_path_segments());
    assert_eq!(p.try_file_name(), None);
    let q = package("not a url", "demo", "1.0", SourceType::RubyGems);
    assert_eq!(q.try_file_name(), None);
}

#[test]
fn changelog_upload_is_read() {
    let item = parse_changelog_item(&entry("demo", "1.0", 1700000000, "add source file demo-1.0.tar.gz", 42))
        .unwrap();
    assert_eq!(item.package_name, "demo");
    assert_eq!(item.version, "1.0");
    assert_eq!(item.file_name, "demo-1.0.tar.gz");
    assert_eq!(item.ts, Timestamp { seconds: 1700000000, nanos: 0 });
    assert_eq!(item.serial, 42);
}

#[test]
fn changelog_negative_serial_wraps() {
    let item = parse_changelog_item(&entry("demo", "1.0", -5, "add py3 file x.whl", -1)).unwrap();
    assert_eq!(item.serial, u64::MAX);
    assert_eq!(item.ts.seconds, -5);
}

#[test]
fn changelog_entries_that_are_skipped() {
    assert!(parse_changelog_item(&entry("numpy", "1.0", 1, "add source file numpy.tar.gz", 1)).is_none());
    assert!(parse_changelog_item(&entry("demo", "1.0", 1, "add file demo.exe", 1)).is_none());
    assert!(parse_changelog_item(&entry("demo", "1.0", 1, "remove file demo.tar.gz", 1)).is_none());
    assert!(parse_changelog_item(&entry("demo", "1.0", 1, "add", 1)).is_none());
    let mut short = entry("demo", "1.0", 1, "add file x", 1);
    short.pop();
    assert!(parse_changelog_item(&short).is_none());
    let mut wrong = entry("demo", "1.0", 1, "add file x", 1);
    wrong[2] = XmlValue::Other;
    assert!(parse_changelog_item(&wrong).is_none());
}

#[test]
fn skip_list_membership() {
    assert!(is_skipped_package(&s("tensorflow")));
    assert!(is_skipped_package(&s("awscrt")));
    assert!(!is_skipped_package(&s("tensorflo")));
    assert!(!is_skipped_package(&s("my-package")));
}

#[test]
fn changelog_selection_takes_limit() {
    let response = XmlValue::Array(vec![
        XmlValue::Array(entry("a", "1", 10, "add file a.tar.gz", 5)),
        XmlValue::Int(3),
        XmlValue::Array(entry("numpy", "1", 11, "add file n.tar.gz", 6)),
        XmlValue::Array(entry("b", "2", 12, "add file b.whl", 7)),
        XmlValue::Array(entry("c", "3", 13, "add file c.whl", 8)),
    ]);
    let items = select_changelog_items(&response, 2).unwrap();
    let names: Vec<_> = items.iter().map(|i| i.package_name.clone()).collect();
    assert_eq!(names, vec![s("a"), s("b")]);
    assert_eq!(
        select_changelog_items(&XmlValue::Int(1), 5).unwrap_err(),
        SourceError::UnknownChangelogResponse
    );
}

#[test]
fn pypi_plan_moves_serial_and_time() {
    let mut source = PyPiSource::new(None);
    let response = XmlValue::Array(vec![
        XmlValue::Array(entry("a", "1", 30, "add file a-1.tar.gz", 9)),
        XmlValue::Array(entry("b", "2", 50, "add file b-2.whl", 7)),
        XmlValue::Array(entry("a", "1", 40, "add file a-1.whl", 8)),
    ]);
    let releases = source.plan_releases(&response, 10).unwrap();
    assert_eq!(source.changelog_serial, 9);
    assert_eq!(source.last_package_timestamp, Some(Timestamp { seconds: 50, nanos: 0 }));
    assert_eq!(releases.len(), 2);
    assert_eq!(releases[0].name, "a");
    assert_eq!(releases[0].changelogs.len(), 2);
    assert_eq!(releases[1].name, "b");
}

#[test]
fn pypi_plan_without_uploads_fails() {
    let mut source = PyPiSource::new(None);
    let response = XmlValue::Array(vec![XmlValue::Array(entry("numpy", "1", 3, "add file x", 1))]);
    assert_eq!(source.plan_releases(&response, 10).unwrap_err(), SourceError::NoChangelogItems);
    assert_eq!(source.changelog_serial, 0);
    assert_eq!(source.last_package_timestamp, None);
}

#[test]
fn releases_group_uploads() {
    let item = |n: &str, v: &str, f: &str| ChangelogItem {
        package_name: s(n),
        version: s(v),
        file_name: s(f),
        ts: Timestamp { seconds: 0, nanos: 0 },
        serial: 0,
    };
    let groups = group_releases(vec![
        item("a", "1", "x"),
        item("a", "2", "y"),
        item("a", "1", "z"),
    ]);
    assert_eq!(groups.len(), 2);
    assert_eq!(groups[0].version, "1");
    let files: Vec<_> = groups[0].changelogs.iter().map(|c| c.file_name.clone()).collect();
    assert_eq!(files, vec![s("x"), s("z")]);
    assert_eq!(groups[1].version, "2");
}

#[test]
fn pypi_matching_files_only() {
    let mut source = PyPiSource::new(None);
    let response = XmlValue::Array(vec![XmlValue::Array(entry(
        "demo",
        "1.0",
        5,
        "add source file demo-1.0.tar.gz",
        3,
    ))]);
    let release = source.plan_releases(&response, 10).unwrap().remove(0);
    let api = PyPiResponse {
        urls: vec![
            PackageUrl { url: s("https://files.example/demo-1.0.tar.gz"), filename: s("demo-1.0.tar.gz") },
            PackageUrl { url: s("https://files.example/demo-1.0.whl"), filename: s("demo-1.0.whl") },
            PackageUrl { url: s("::bad::"), filename: s("demo-1.0.tar.gz") },
            PackageUrl { url: s("HTTPS://Files.Example/a/../demo-1.0.tar.gz"), filename: s("demo-1.0.tar.gz") },
        ],
    };
    let found = matching_packages(&release, api);
    assert_eq!(found.len(), 2);
    assert_eq!(found[0].download_url, "https://files.example/demo-1.0.tar.gz");
    assert_eq!(found[1].download_url, "https://files.example/demo-1.0.tar.gz");
    assert_eq!(found[0].source, SourceType::PyPi);
    assert_eq!(found[0].name, "demo");
}

#[test]
fn pypi_missing_release_statuses() {
    assert!(release_not_found(404));
    assert!(release_not_found(400));
    assert!(!release_not_found(200));
    assert!(!release_not_found(500));
}

#[test]
fn shuffle_keeps_all_packages() {
    let a = package("https://x.example/a", "a", "1", SourceType::PyPi);
    let b = package("https://x.example/b", "b", "1", SourceType::PyPi);
    let c = package("https://x.example/c", "c", "1", SourceType::PyPi);
    let out = shuffled_packages(vec![vec![a.clone(), b.clone()], vec![], vec![c.clone()]]);
    let mut names: Vec<_> = out.iter().map(|p| p.name.clone()).collect();
    names.sort();
    assert_eq!(names, vec![s("a"), s("b"), s("c")]);
}

#[test]
fn rubygems_urls() {
    let source = RubyGemsSource::new(None);
    assert_eq!(source.last_package_timestamp, Timestamp { seconds: 1547846669, nanos: 0 });
    let base = source.base_url().unwrap();
    assert_eq!(
        base,
        "https://rubygems.org/api/v1/timeframe_versions.json?from=2019-01-18T21:24:29Z&to=2019-01-23T21:24:29Z"
    );
    assert_eq!(page_url(&base, 0), format!("{base}&page=0"));
    assert_eq!(page_url(&s("b"), 42), "b&page=42");
    let far = RubyGemsSource::new(Some(RubyGemsSource {
        last_package_timestamp: Timestamp { seconds: i64::MAX, nanos: 0 },
        stats: SourceStats::new(),
    }));
    assert_eq!(far.base_url(), None);
}

#[test]
fn rubygems_finish_takes_limit_and_latest_time() {
    let mut source = RubyGemsSource::new(None);
    let gem = |n: &str, t: i64| RubyGemsResponse {
        name: s(n),
        version: s("1.0"),
        gem_uri: format!("https://rubygems.org/gems/{n}-1.0.gem"),
        version_created_at: Timestamp { seconds: t, nanos: 0 },
    };
    let out = source.finish(vec![gem("a", 100), gem("b", 300), gem("c", 200), gem("d", 900)], 3).unwrap();
    let names: Vec<_> = out.iter().map(|p| p.name.clone()).collect();
    assert_eq!(names, vec![s("a"), s("b"), s("c")]);
    assert_eq!(out[0].source, SourceType::RubyGems);
    assert_eq!(out[1].download_url, "https://rubygems.org/gems/b-1.0.gem");
    assert_eq!(source.last_package_timestamp.seconds, 300);
    assert_eq!(source.finish(vec![], 3).unwrap_err(), SourceError::NoReleases);
    assert_eq!(source.finish(vec![gem("z", 5)], 0).unwrap_err(), SourceError::NoReleases);
    assert_eq!(source.last_package_timestamp.seconds, 300);
}

#[test]
fn hexpm_new_releases_since_source_time() {
    let source = HexPmSource::new(None);
    let rel = |v: &str, t: i64| HexPmRelease { version: s(v), inserted_at: Timestamp { seconds: t, nanos: 0 } };
    let page = vec![
        HexPmResponse { name: s("a"), releases: vec![rel("1", 1514764799), rel("2", 1514764800)] },
        HexPmResponse { name: s("b"), releases: vec![rel("3", 1600000000)] },
    ];
    let found = source.new_releases(page);
    let got: Vec<_> = found.iter().map(|(n, r)| (n.clone(), r.version.clone())).collect();
    assert_eq!(got, vec![(s("a"), s("2")), (s("b"), s("3"))]);
}

#[test]
fn hexpm_finish_latest_first() {
    let mut source = HexPmSource::new(None);
    let rel = |n: &str, v: &str, t: i64| (s(n), HexPmRelease { version: s(v), inserted_at: Timestamp { seconds: t, nanos: 0 } });
    let results = vec![rel("a", "1", 10), rel("b", "2", 30), rel("c", "3", 20)];
    let out = source.finish(results, 2).unwrap();
    let names: Vec<_> = out.iter().map(|p| p.name.clone()).collect();
    assert_eq!(names, vec![s("c"), s("b")]);
    assert_eq!(out[0].download_url, "https://repo.hex.pm/tarballs/c-3.tar");
    assert_eq!(out[1].file_name(), "b-2.tar");
    assert_eq!(source.last_package_timestamp.seconds, 30);
    assert_eq!(source.try_finish(vec![], 2), Some(Err(SourceError::NoReleases)));
}

#[test]
fn pages_stop_at_limit_empty_page_or_end() {
    let mut pages = Pages::new(1, 3);
    assert_eq!(pages.next_page(0, 10), Some(1));
    pages.record(false);
    assert_eq!(pages.next_page(5, 10), Some(2));
    assert_eq!(pages.next_page(10, 10), None);
    pages.record(false);
    assert_eq!(pages.next_page(5, 10), None);
    let mut empty = Pages::new(0, 50);
    empty.record(true);
    assert_eq!(empty.next_page(0, 10), None);
}

#[test]
fn hexpm_time_does_not_go_back() {
    let mut source = HexPmSource::new(None);
    let start = source.last_package_timestamp;
    let rel = |v: &str, t: i64| HexPmRelease { version: s(v), inserted_at: Timestamp { seconds: t, nanos: 0 } };
    let page = vec![HexPmResponse {
        name: s("a"),
        releases: vec![rel("1", start.seconds - 10), rel("2", start.seconds), rel("3", start.seconds + 7)],
    }];
    let found = source.new_releases(page);
    assert_eq!(found.len(), 2);
    let out = source.finish(found, 1).unwrap();
    assert_eq!(out[0].version, "3");
    assert!(!source.last_package_timestamp.is_before(&start));
    assert_eq!(source.last_package_timestamp.seconds, start.seconds + 7);
}

#[test]
fn registry_page_ranges() {
    let mut hex = HexPmSource::pages();
    let mut seen = vec![];
    while let Some(p) = hex.next_page(0, 100) {
        seen.push(p);
        hex.record(false);
    }
    assert_eq!(seen, (1..20).collect::<Vec<u32>>());
    assert_eq!(HexPmSource::pages().next_page(0, 0), None);
    let mut ruby = RubyGemsSource::pages();
    let mut count = 0;
    let mut first = None;
    while let Some(p) = ruby.next_page(0, 100) {
        first.get_or_insert(p);
        count += 1;
        ruby.record(false);
    }
    assert_eq!(first, Some(0));
    assert_eq!(count, 50);
}

#[test]
fn hexpm_page_urls() {
    assert_eq!(hexpm::page_url(1), "https://hex.pm/api/packages?sort=updated_at&search=&page=1");
    assert_eq!(hexpm::page_url(19), "https://hex.pm/api/packages?sort=updated_at&search=&page=19");
}

#[test]
fn rubygems_window_is_five_days() {
    let source = RubyGemsSource::new(Some(RubyGemsSource {
        last_package_timestamp: Timestamp { seconds: 0, nanos: 500 },
        stats: SourceStats::new(),
    }));
    assert_eq!(
        source.base_url().unwrap(),
        "https://rubygems.org/api/v1/timeframe_versions.json?from=1970-01-01T00:00:00Z&to=1970-01-06T00:00:00Z"
    );
}

#[test]
fn report_folders_are_distinct_inside_keys() {
    let all = [SourceType::PyPi, SourceType::RubyGems, SourceType::HexPm];
    for a in all {
        let p = a.report_path();
        let parts: Vec<_> = std::path::Path::new(&p).components().collect();
        assert_eq!(parts.len(), 2);
        assert_eq!(parts[0].as_os_str(), "keys");
        for b in all {
            assert_eq!(a.report_path() == b.report_path(), a == b);
        }
    }
}
