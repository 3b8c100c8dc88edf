use mukti::{
    archive_url, archive_urls, pair_with_outcomes, update_release_json, Archive,
    ArchiveWithChecksums, Checksums, DigestAlgorithm, FetchError, FetchOutcome, MuktiProject,
    MuktiReleasesJson, ReleaseStatus, TargetFormat, ProjectCountError, UpdateOutcome, Version,
    VersionRange,
};

fn archive(target: &str, format: &str, name: &str) -> Archive {
    Archive {
        target_format: TargetFormat { target: target.to_owned(), format: format.to_owned() },
        name: name.to_owned(),
    }
}

fn fetched(prefix: &str, archives: Vec<Archive>, outcomes: Vec<FetchOutcome>) -> Vec<ArchiveWithChecksums> {
    pair_with_outcomes(prefix, archives, outcomes)
}

fn one_project() -> MuktiReleasesJson {
    let mut tree = MuktiReleasesJson::new();
    tree.insert_project("app".to_owned(), MuktiProject::new());
    tree
}

fn prerelease(major: u64, minor: u64, patch: u64, pre: &str) -> Version {
    Version::from_parts(major, minor, patch, pre, "").unwrap()
}

fn add(tree: &mut MuktiReleasesJson, version: &Version) {
    let archives = fetched(
        "https://cdn",
        vec![archive("linux", "tar.gz", "app.tar.gz")],
        vec![Ok(Checksums::compute(b"archive"))],
    );
    let url = format!("https://example.com/releases/{}", version.to_string());
    assert_eq!(update_release_json(tree, &url, version, archives), Ok(UpdateOutcome::Updated));
}

fn latest_of(tree: &MuktiReleasesJson, range: VersionRange) -> (String, bool) {
    let project = &tree.projects()[0].1;
    let (_, bucket) = project.ranges().iter().find(|(key, _)| *key == range).unwrap();
    (bucket.latest().to_string(), bucket.is_prerelease())
}

fn versions_of(tree: &MuktiReleasesJson, range: VersionRange) -> Vec<String> {
    let project = &tree.projects()[0].1;
    let (_, bucket) = project.ranges().iter().find(|(key, _)| *key == range).unwrap();
    bucket.versions().iter().map(|(version, _)| version.to_string()).collect()
}

fn ranges_of(tree: &MuktiReleasesJson) -> Vec<String> {
    tree.projects()[0].1.ranges().iter().map(|(range, _)| range.to_string()).collect()
}

#[test]
fn archive_url_joins_prefix_and_name_with_a_slash() {
    assert_eq!(archive_url("https://cdn", "app.tar.gz"), "https://cdn/app.tar.gz");
    assert_eq!(archive_url("https://cdn/", "app.tar.gz"), "https://cdn//app.tar.gz");
    assert_eq!(archive_url("", ""), "/");
}

#[test]
fn archive_urls_keeps_the_order_of_the_archives() {
    let archives = vec![archive("a", "zip", "one.zip"), archive("b", "zip", "two.zip")];
    assert_eq!(archive_urls("p", &archives), vec!["p/one.zip".to_owned(), "p/two.zip".to_owned()]);
}

#[test]
fn adding_the_first_release_makes_its_bucket_the_latest() {
    let mut tree = one_project();
    let version = Version::new(1, 2, 0);
    let checksums = Checksums::compute(b"the archive");
    let archives = fetched(
        "https://cdn",
        vec![archive("x86_64-unknown-linux-gnu", "tar.gz", "app.tar.gz")],
        vec![Ok(checksums)],
    );
    let result = update_release_json(&mut tree, "https://example.com/1.2.0", &version, archives);
    assert_eq!(result, Ok(UpdateOutcome::Updated));

    assert_eq!(tree.project_count(), 1);
    let (name, project) = &tree.projects()[0];
    assert_eq!(name, "app");
    assert_eq!(project.latest(), Some(VersionRange::Major(1)));
    assert_eq!(project.latest().unwrap().to_string(), "1");
    assert_eq!(project.ranges().len(), 1);

    let (range, bucket) = &project.ranges()[0];
    assert_eq!(range.to_string(), "1");
    assert_eq!(bucket.latest().to_string(), "1.2.0");
    assert!(!bucket.is_prerelease());
    assert_eq!(bucket.versions().len(), 1);

    let (key, data) = &bucket.versions()[0];
    assert_eq!(key.to_string(), "1.2.0");
    assert_eq!(data.release_url, "https://example.com/1.2.0");
    assert_eq!(data.status, ReleaseStatus::Active);
    assert_eq!(data.locations.len(), 1);
    let location = &data.locations[0];
    assert_eq!(location.target, "x86_64-unknown-linux-gnu");
    assert_eq!(location.format, "tar.gz");
    assert_eq!(location.url, "https://cdn/app.tar.gz");
    assert!(location.checksums.is_complete());
    assert_eq!(
        location.checksums.get(DigestAlgorithm::SHA256).unwrap(),
        &checksums.sha256_hex()
    );
    assert_eq!(
        location.checksums.get(DigestAlgorithm::BLAKE2B).unwrap(),
        &checksums.blake2b_hex()
    );
}

#[test]
fn a_prerelease_of_a_new_range_does_not_become_the_latest_range() {
    let mut tree = one_project();
    add(&mut tree, &Version::new(1, 2, 0));
    add(&mut tree, &prerelease(2, 0, 0, "beta.1"));

    assert_eq!(ranges_of(&tree), vec!["1", "2"]);
    assert_eq!(latest_of(&tree, VersionRange::Major(2)), ("2.0.0-beta.1".to_owned(), true));
    assert_eq!(latest_of(&tree, VersionRange::Major(1)), ("1.2.0".to_owned(), false));
    assert_eq!(tree.projects()[0].1.latest(), Some(VersionRange::Major(1)));

    add(&mut tree, &Version::new(2, 0, 0));
    assert_eq!(latest_of(&tree, VersionRange::Major(2)), ("2.0.0".to_owned(), false));
    assert_eq!(tree.projects()[0].1.latest(), Some(VersionRange::Major(2)));
}

#[test]
fn a_project_with_prereleases_only_has_no_latest_range() {
    let mut tree = one_project();
    add(&mut tree, &prerelease(0, 3, 0, "rc.1"));
    assert_eq!(tree.projects()[0].1.latest(), None);
    assert_eq!(latest_of(&tree, VersionRange::Minor(3)), ("0.3.0-rc.1".to_owned(), true));
    add(&mut tree, &prerelease(0, 3, 0, "rc.2"));
    assert_eq!(latest_of(&tree, VersionRange::Minor(3)), ("0.3.0-rc.2".to_owned(), true));
    add(&mut tree, &prerelease(0, 3, 0, "rc.1"));
    assert_eq!(latest_of(&tree, VersionRange::Minor(3)), ("0.3.0-rc.2".to_owned(), true));
}

#[test]
fn latest_moves_only_to_a_greater_version_of_its_kind() {
    let mut tree = one_project();
    let range = VersionRange::Major(1);
    add(&mut tree, &Version::new(1, 2, 0));
    assert_eq!(latest_of(&tree, range), ("1.2.0".to_owned(), false));

    add(&mut tree, &Version::new(1, 1, 0));
    assert_eq!(latest_of(&tree, range), ("1.2.0".to_owned(), false));

    add(&mut tree, &prerelease(1, 3, 0, "rc.1"));
    assert_eq!(latest_of(&tree, range), ("1.2.0".to_owned(), false));

    add(&mut tree, &Version::new(1, 2, 0));
    assert_eq!(latest_of(&tree, range), ("1.2.0".to_owned(), false));

    add(&mut tree, &Version::new(1, 10, 0));
    assert_eq!(latest_of(&tree, range), ("1.10.0".to_owned(), false));

    assert_eq!(versions_of(&tree, range), vec!["1.1.0", "1.2.0", "1.3.0-rc.1", "1.10.0"]);
}

#[test]
fn the_first_ordinary_release_becomes_the_latest_even_below_a_prerelease() {
    let mut tree = one_project();
    let range = VersionRange::Major(1);
    add(&mut tree, &prerelease(1, 5, 0, "beta.1"));
    assert_eq!(latest_of(&tree, range), ("1.5.0-beta.1".to_owned(), true));
    add(&mut tree, &Version::new(1, 2, 0));
    assert_eq!(latest_of(&tree, range), ("1.2.0".to_owned(), false));
    assert_eq!(tree.projects()[0].1.latest(), Some(range));
}

#[test]
fn versions_and_ranges_stay_sorted_whatever_the_order_of_insertion() {
    let versions = [
        Version::new(1, 0, 0),
        Version::new(0, 0, 3),
        prerelease(1, 0, 0, "alpha"),
        Version::new(0, 2, 1),
        Version::new(2, 1, 0),
        Version::new(0, 2, 0),
        prerelease(2, 1, 0, "rc.1"),
        Version::new(0, 0, 1),
    ];
    let mut forward = one_project();
    for version in versions.iter() {
        add(&mut forward, version);
    }
    let mut backward = one_project();
    for version in versions.iter().rev() {
        add(&mut backward, version);
    }
    for tree in [&forward, &backward] {
        assert_eq!(ranges_of(tree), vec!["0.0.1", "0.0.3", "0.2", "1", "2"]);
        assert_eq!(versions_of(tree, VersionRange::Minor(2)), vec!["0.2.0", "0.2.1"]);
        assert_eq!(versions_of(tree, VersionRange::Major(1)), vec!["1.0.0-alpha", "1.0.0"]);
        assert_eq!(versions_of(tree, VersionRange::Major(2)), vec!["2.1.0-rc.1", "2.1.0"]);
        assert_eq!(tree.projects()[0].1.latest(), Some(VersionRange::Major(2)));

        let project = &tree.projects()[0].1;
        let descending: Vec<String> =
            project.ranges_descending().iter().map(|entry| entry.0.to_string()).collect();
        assert_eq!(descending, vec!["2", "1", "0.2", "0.0.3", "0.0.1"]);
        let bucket = &project.ranges()[3].1;
        let descending: Vec<String> =
            bucket.versions_descending().iter().map(|entry| entry.0.to_string()).collect();
        assert_eq!(descending, vec!["1.0.0", "1.0.0-alpha"]);
    }
}

#[test]
fn adding_a_version_again_overwrites_its_entry() {
    let mut tree = one_project();
    let version = Version::new(1, 0, 0);
    add(&mut tree, &version);
    let archives = fetched(
        "https://mirror",
        vec![archive("mac", "zip", "a.zip"), archive("win", "zip", "b.zip")],
        vec![Ok(Checksums::compute(b"a")), Ok(Checksums::compute(b"b"))],
    );
    let result = update_release_json(&mut tree, "https://example.com/again", &version, archives);
    assert_eq!(result, Ok(UpdateOutcome::Updated));
    let bucket = &tree.projects()[0].1.ranges()[0].1;
    assert_eq!(bucket.versions().len(), 1);
    let data = &bucket.versions()[0].1;
    assert_eq!(data.release_url, "https://example.com/again");
    let urls: Vec<&str> = data.locations.iter().map(|l| l.url.as_str()).collect();
    assert_eq!(urls, vec!["https://mirror/a.zip", "https://mirror/b.zip"]);
}

#[test]
fn a_failed_fetch_leaves_the_location_without_digests() {
    let mut tree = one_project();
    let archives = fetched(
        "https://cdn",
        vec![archive("linux", "tar.gz", "ok.tar.gz"), archive("mac", "zip", "gone.zip")],
        vec![
            Ok(Checksums::compute(b"ok")),
            Err(FetchError { message: "404 Not Found".to_owned() }),
        ],
    );
    let result = update_release_json(&mut tree, "https://example.com/r", &Version::new(3, 0, 0), archives);
    assert_eq!(result, Ok(UpdateOutcome::Updated));
    let data = &tree.projects()[0].1.ranges()[0].1.versions()[0].1;
    assert_eq!(data.locations.len(), 2);
    assert!(data.locations[0].checksums.is_complete());
    assert_eq!(data.locations[1].url, "https://cdn/gone.zip");
    assert_eq!(data.locations[1].checksums.len(), 0);
    assert!(data.locations[1].needs_checksums());
}

#[test]
fn without_archives_nothing_happens() {
    let mut tree = one_project();
    add(&mut tree, &Version::new(1, 0, 0));
    let result = update_release_json(&mut tree, "https://example.com/r", &Version::new(9, 9, 9), Vec::new());
    assert_eq!(result, Ok(UpdateOutcome::Unchanged));
    assert_eq!(ranges_of(&tree), vec!["1"]);
    assert_eq!(versions_of(&tree, VersionRange::Major(1)), vec!["1.0.0"]);
    assert_eq!(tree.projects()[0].1.latest(), Some(VersionRange::Major(1)));

    let mut empty = MuktiReleasesJson::new();
    let result = update_release_json(&mut empty, "https://example.com/r", &Version::new(1, 0, 0), Vec::new());
    assert_eq!(result, Ok(UpdateOutcome::Unchanged));
    assert_eq!(empty.project_count(), 0);
}

#[test]
fn a_document_must_hold_exactly_one_project() {
    let archives = || {
        fetched(
            "https://cdn",
            vec![archive("linux", "tar.gz", "app.tar.gz")],
            vec![Ok(Checksums::compute(b"x"))],
        )
    };
    let mut empty = MuktiReleasesJson::default();
    let result = update_release_json(&mut empty, "u", &Version::new(1, 0, 0), archives());
    assert_eq!(result, Err(ProjectCountError { found: 0 }));
    assert_eq!(empty.project_count(), 0);

    let mut two = one_project();
    two.insert_project("lib".to_owned(), MuktiProject::new());
    let result = update_release_json(&mut two, "u", &Version::new(1, 0, 0), archives());
    assert_eq!(result, Err(ProjectCountError { found: 2 }));
    assert_eq!(two.project_count(), 2);
    assert!(two.projects().iter().all(|(_, project)| project.ranges().is_empty()));
    assert_eq!(
        ProjectCountError { found: 2 }.to_string(),
        "mukti-bin currently only supports one project, 2 found"
    );
}

#[test]
fn insert_project_replaces_a_project_of_the_same_name() {
    let mut tree = one_project();
    add(&mut tree, &Version::new(1, 0, 0));
    tree.insert_project("app".to_owned(), MuktiProject::new());
    assert_eq!(tree.project_count(), 1);
    assert!(tree.projects()[0].1.ranges().is_empty());
    tree.insert_project("other".to_owned(), MuktiProject::new());
    let names: Vec<&str> = tree.projects().iter().map(|(name, _)| name.as_str()).collect();
    assert_eq!(names, vec!["app", "other"]);
}

#[test]
fn a_missing_file_gives_an_empty_document_only_where_that_is_allowed() {
    assert_eq!(MuktiReleasesJson::when_missing(true).unwrap().project_count(), 0);
    assert!(MuktiReleasesJson::when_missing(false).is_none());
}

fn listing(project: &MuktiProject) -> Vec<(String, String, usize)> {
    project
        .all_versions()
        .iter()
        .map(|(version, data)| (version.to_string(), data.release_url.clone(), data.locations.len()))
        .collect()
}

#[test]
fn a_project_built_again_from_its_versions_is_the_same() {
    let mut tree = one_project();
    for version in [
        Version::new(1, 0, 0),
        prerelease(2, 0, 0, "rc.1"),
        Version::new(0, 4, 2),
        Version::new(1, 3, 0),
        prerelease(1, 4, 0, "alpha"),
        Version::new(0, 0, 9),
    ] {
        add(&mut tree, &version);
    }
    let project = &tree.projects()[0].1;
    let versions: Vec<String> =
        project.all_versions().iter().map(|(version, _)| version.to_string()).collect();
    assert_eq!(versions, vec!["0.0.9", "0.4.2", "1.0.0", "1.3.0", "1.4.0-alpha", "2.0.0-rc.1"]);

    let entries: Vec<_> = project.all_versions().into_iter().cloned().collect();
    let again = MuktiProject::from_versions(entries);
    assert_eq!(listing(&again), listing(project));
    assert_eq!(again.latest(), project.latest());
    assert_eq!(again.ranges().len(), project.ranges().len());
    for ((range, bucket), (range_again, bucket_again)) in project.ranges().iter().zip(again.ranges()) {
        assert_eq!(range, range_again);
        assert_eq!(bucket.latest().to_string(), bucket_again.latest().to_string());
        assert_eq!(bucket.is_prerelease(), bucket_again.is_prerelease());
    }

    let copy = project.clone();
    assert_eq!(listing(&copy), listing(project));

    let rebuilt = MuktiReleasesJson::from_projects(vec![
        ("app".to_owned(), again),
        ("empty".to_owned(), MuktiProject::new()),
    ]);
    assert_eq!(rebuilt.project_count(), 2);
    assert_eq!(listing(&rebuilt.clone().projects()[0].1), listing(project));
}
