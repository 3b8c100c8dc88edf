use mukti::{
    backfill_checksums, backfill_urls, key_by_url, update_release_json, Archive,
    ArchiveWithChecksums, Batch, ChecksumMap, Checksums, DigestAlgorithm, FetchError,
    FetchOutcome, FetchStep, FetchTask, KeyedOutcomes, MuktiProject, MuktiReleasesJson, Progress,
    ReleaseLocation, TargetFormat, UpdateOutcome, Version, MAX_ATTEMPTS,
};

fn unfetched(target: &str, url: &str) -> ArchiveWithChecksums {
    ArchiveWithChecksums {
        archive: Archive {
            target_format: TargetFormat { target: target.to_owned(), format: "zip".to_owned() },
            name: "unused".to_owned(),
        },
        url: url.to_owned(),
        checksums: Err(FetchError { message: "not fetched".to_owned() }),
    }
}

fn tree_with(releases: Vec<(Version, Vec<&str>)>) -> MuktiReleasesJson {
    let mut tree = MuktiReleasesJson::new();
    tree.insert_project("app".to_owned(), MuktiProject::new());
    for (version, urls) in releases {
        let archives: Vec<ArchiveWithChecksums> =
            urls.iter().enumerate().map(|(i, url)| unfetched(&format!("t{}", i), url)).collect();
        assert_eq!(
            update_release_json(&mut tree, "https://example.com/r", &version, archives),
            Ok(UpdateOutcome::Updated)
        );
    }
    tree
}

fn body_of(url: &str) -> Vec<u8> {
    format!("the bytes behind {}", url).into_bytes()
}

fn failure(text: &str) -> FetchError {
    FetchError { message: text.to_owned() }
}

/// Runs one task to its end against a fetch that fails `failures` times
/// before it succeeds, and tells how many attempts were made.
fn run_task(url: &str, failures: u32) -> (FetchOutcome, u32) {
    let mut task = FetchTask::new();
    let mut attempts = 0;
    loop {
        attempts += 1;
        assert_eq!(task.attempt(), attempts);
        if attempts > failures {
            return (task.succeeded(&body_of(url)), attempts);
        }
        match task.failed(failure(&format!("attempt {} at {} failed", attempts, url))) {
            FetchStep::Retry(next) => task = next,
            FetchStep::Done(outcome) => return (outcome, attempts),
        }
    }
}

#[test]
fn a_task_succeeds_with_the_digests_of_the_body() {
    let (outcome, attempts) = run_task("https://cdn/a", 0);
    assert_eq!(attempts, 1);
    let checksums = outcome.unwrap();
    assert_eq!(checksums.sha256_hex(), Checksums::compute(&body_of("https://cdn/a")).sha256_hex());
    assert_eq!(checksums.blake2b_hex(), Checksums::compute(&body_of("https://cdn/a")).blake2b_hex());
}

#[test]
fn a_task_tries_three_times_and_reports_the_last_error() {
    assert_eq!(MAX_ATTEMPTS, 3);
    let (outcome, attempts) = run_task("https://cdn/a", 2);
    assert_eq!(attempts, 3);
    assert!(outcome.is_ok());

    let (outcome, attempts) = run_task("https://cdn/a", 3);
    assert_eq!(attempts, 3);
    assert_eq!(outcome.unwrap_err().message, "attempt 3 at https://cdn/a failed");

    let (outcome, attempts) = run_task("https://cdn/a", 100);
    assert_eq!(attempts, 3);
    assert!(outcome.is_err());
}

#[test]
fn hashing_the_same_bytes_twice_gives_the_same_digests() {
    let first = Checksums::compute(b"some archive");
    let second = Checksums::compute(b"some archive");
    assert_eq!(first.sha256_hex(), second.sha256_hex());
    assert_eq!(first.blake2b_hex(), second.blake2b_hex());
    let other = Checksums::compute(b"some archivf");
    assert_ne!(first.sha256_hex(), other.sha256_hex());
    assert_ne!(first.blake2b_hex(), other.blake2b_hex());
}

#[test]
fn backfill_urls_lists_each_incomplete_url_once() {
    let mut tree = tree_with(vec![
        (Version::new(1, 0, 0), vec!["https://cdn/a", "https://cdn/b"]),
        (Version::new(1, 1, 0), vec!["https://cdn/b", "https://cdn/c", "https://cdn/a"]),
        (Version::new(0, 1, 0), vec!["https://cdn/z"]),
    ]);
    assert_eq!(tree.all_locations().len(), 6);
    assert_eq!(tree.all_locations_without_checksums().len(), 6);
    assert_eq!(
        backfill_urls(&tree),
        vec!["https://cdn/z", "https://cdn/a", "https://cdn/b", "https://cdn/c"]
    );

    let mut done = KeyedOutcomes::new();
    done.insert("https://cdn/a".to_owned(), Ok(Checksums::compute(b"a")));
    backfill_checksums(&mut tree, &done);
    assert_eq!(tree.all_locations().len(), 6);
    let left: Vec<&str> =
        tree.all_locations_without_checksums().iter().map(|l| l.url.as_str()).collect();
    assert_eq!(left, vec!["https://cdn/z", "https://cdn/b", "https://cdn/b", "https://cdn/c"]);
    assert_eq!(backfill_urls(&tree), vec!["https://cdn/z", "https://cdn/b", "https://cdn/c"]);
}

#[test]
fn a_location_with_one_digest_is_incomplete() {
    let mut checksums = ChecksumMap::new();
    checksums.insert(DigestAlgorithm::SHA256, "00".to_owned());
    let mut location = ReleaseLocation {
        target: "t".to_owned(),
        format: "f".to_owned(),
        url: "https://cdn/a".to_owned(),
        checksums,
    };
    assert!(location.needs_checksums());
    assert!(location.checksums.contains_key(DigestAlgorithm::SHA256));
    assert!(!location.checksums.contains_key(DigestAlgorithm::BLAKE2B));

    let fresh = Checksums::compute(b"a");
    location.set_checksums(&fresh);
    assert!(!location.needs_checksums());
    assert_eq!(location.checksums.get(DigestAlgorithm::SHA256).unwrap(), &fresh.sha256_hex());
    assert_eq!(location.clone().url, "https://cdn/a");
}

#[test]
fn backfill_overwrites_every_location_that_shares_a_fetched_url() {
    let mut tree = tree_with(vec![
        (Version::new(1, 0, 0), vec!["https://cdn/u", "https://cdn/other"]),
        (Version::new(2, 0, 0), vec!["https://cdn/u"]),
    ]);
    let bytes = b"the body of u";
    let urls = vec!["https://cdn/u".to_owned()];
    let outcomes: Vec<FetchOutcome> = vec![Ok(Checksums::compute(bytes))];
    backfill_checksums(&mut tree, &key_by_url(urls, outcomes));

    let expected = Checksums::compute(bytes);
    let mut seen = 0;
    for location in tree.all_locations() {
        if location.url == "https://cdn/u" {
            seen += 1;
            assert_eq!(location.checksums.len(), 2);
            assert_eq!(
                location.checksums.get(DigestAlgorithm::SHA256).unwrap(),
                &expected.sha256_hex()
            );
            assert_eq!(
                location.checksums.get(DigestAlgorithm::BLAKE2B).unwrap(),
                &expected.blake2b_hex()
            );
        } else {
            assert_eq!(location.checksums.len(), 0);
        }
    }
    assert_eq!(seen, 2);
    assert_eq!(tree.projects()[0].1.ranges().len(), 2);
    assert_eq!(tree.projects()[0].1.ranges()[0].1.latest().to_string(), "1.0.0");
}

#[test]
fn backfill_replaces_a_partial_map() {
    let mut tree = tree_with(vec![(Version::new(1, 0, 0), vec!["https://cdn/u"])]);
    let mut partial = KeyedOutcomes::new();
    partial.insert("https://cdn/u".to_owned(), Ok(Checksums::compute(b"old")));
    backfill_checksums(&mut tree, &partial);
    let mut fresh = KeyedOutcomes::new();
    fresh.insert("https://cdn/u".to_owned(), Ok(Checksums::compute(b"new")));
    backfill_checksums(&mut tree, &fresh);
    let locations = tree.all_locations();
    assert_eq!(
        locations[0].checksums.get(DigestAlgorithm::SHA256).unwrap(),
        &Checksums::compute(b"new").sha256_hex()
    );
}

#[test]
fn keyed_outcomes_keep_the_last_outcome_of_a_url() {
    let mut outcomes = KeyedOutcomes::new();
    assert!(outcomes.get(&"u".to_owned()).is_none());
    outcomes.insert("u".to_owned(), Err(failure("first")));
    outcomes.insert("v".to_owned(), Ok(Checksums::compute(b"v")));
    outcomes.insert("u".to_owned(), Ok(Checksums::compute(b"u")));
    assert!(outcomes.get(&"u".to_owned()).unwrap().is_ok());
    assert!(outcomes.get(&"v".to_owned()).unwrap().is_ok());
    assert!(outcomes.get(&"w".to_owned()).is_none());
    outcomes.insert("v".to_owned(), Err(failure("later")));
    assert_eq!(outcomes.get(&"v".to_owned()).unwrap().as_ref().unwrap_err().message, "later");
}

#[test]
fn a_batch_with_failures_gives_every_outcome_and_updates_only_the_successes() {
    let urls: Vec<String> = (0..5).map(|i| format!("https://cdn/{}", i)).collect();
    let mut tree = tree_with(vec![
        (Version::new(1, 0, 0), vec!["https://cdn/0", "https://cdn/1", "https://cdn/2"]),
        (Version::new(1, 1, 0), vec!["https://cdn/3", "https://cdn/4", "https://cdn/1"]),
    ]);
    assert_eq!(backfill_urls(&tree), urls);
    let failing = |index: usize| index == 1 || index == 3;

    let limit = 2;
    let mut batch = Batch::new(urls.len(), limit);
    let mut running: Vec<usize> = Vec::new();
    let mut attempts_made = vec![0u32; urls.len()];
    let mut reports: Vec<Progress> = Vec::new();
    while !batch.is_finished() {
        while let Some(index) = batch.start_next() {
            running.push(index);
            assert!(batch.in_flight() <= limit);
        }
        assert!(!running.is_empty());
        // The task that was started last ends first.
        let index = running.pop().unwrap();
        let (outcome, attempts) = run_task(&urls[index], if failing(index) { 3 } else { 0 });
        attempts_made[index] = attempts;
        reports.push(batch.complete(index, outcome).unwrap());
    }
    assert_eq!(attempts_made, vec![1, 3, 1, 3, 1]);
    assert_eq!(reports.len(), 5);
    assert_eq!(reports[4], Progress { succeeded: 3, failed: 2, total: 5 });
    for (n, report) in reports.iter().enumerate() {
        assert_eq!(report.succeeded + report.failed, n + 1);
        assert_eq!(report.total, 5);
    }

    let outcomes = batch.into_outcomes().unwrap();
    assert_eq!(outcomes.len(), 5);
    for (index, outcome) in outcomes.iter().enumerate() {
        assert_eq!(outcome.is_err(), failing(index));
        if let Ok(checksums) = outcome {
            assert_eq!(checksums.sha256_hex(), Checksums::compute(&body_of(&urls[index])).sha256_hex());
        }
    }
    assert_eq!(outcomes.iter().filter(|o| o.is_ok()).count(), 3);

    backfill_checksums(&mut tree, &key_by_url(urls.clone(), outcomes));
    for location in tree.all_locations() {
        let index = urls.iter().position(|url| *url == location.url).unwrap();
        if failing(index) {
            assert_eq!(location.checksums.len(), 0);
        } else {
            assert!(location.checksums.is_complete());
            assert_eq!(
                location.checksums.get(DigestAlgorithm::BLAKE2B).unwrap(),
                &Checksums::compute(&body_of(&location.url)).blake2b_hex()
            );
        }
    }
    assert_eq!(backfill_urls(&tree), vec!["https://cdn/1", "https://cdn/3"]);
}
