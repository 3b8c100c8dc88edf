use mukti::redirects::trim_trailing_slashes;
use mukti::{
    generate_netlify_redirects, update_release_json, write_entries, Alias, Archive,
    ArchiveWithChecksums, ChecksumMap, FetchError, MuktiProject, MuktiReleasesJson,
    ReleaseLocation, ReleaseStatus, ReleaseVersionData, TargetFormat, ProjectCountError, Version,
};

fn alias(name: &str, target: &str, format: &str) -> Alias {
    Alias {
        alias: name.to_owned(),
        target_format: TargetFormat { target: target.to_owned(), format: format.to_owned() },
    }
}

fn location(target: &str, format: &str, url: &str) -> ReleaseLocation {
    ReleaseLocation {
        target: target.to_owned(),
        format: format.to_owned(),
        url: url.to_owned(),
        checksums: ChecksumMap::new(),
    }
}

fn add(tree: &mut MuktiReleasesJson, version: Version, targets: &[&str]) {
    let archives: Vec<ArchiveWithChecksums> = targets
        .iter()
        .map(|target| ArchiveWithChecksums {
            archive: Archive {
                target_format: TargetFormat { target: (*target).to_owned(), format: "tar.gz".to_owned() },
                name: "unused".to_owned(),
            },
            url: format!("https://cdn/{}/{}.tar.gz", version.to_string(), target),
            checksums: Err(FetchError { message: "not fetched".to_owned() }),
        })
        .collect();
    let release_url = format!("https://example.com/{}", version.to_string());
    update_release_json(tree, &release_url, &version, archives).unwrap();
}

#[test]
fn trailing_slashes_are_cut_off() {
    assert_eq!(trim_trailing_slashes("/"), "");
    assert_eq!(trim_trailing_slashes(""), "");
    assert_eq!(trim_trailing_slashes("/get///"), "/get");
    assert_eq!(trim_trailing_slashes("/a/b"), "/a/b");
    assert_eq!(trim_trailing_slashes("//a/ "), "//a/ ");
}

#[test]
fn write_entries_writes_the_release_then_each_location_with_its_aliases() {
    let data = ReleaseVersionData {
        release_url: "https://example.com/1.0.0".to_owned(),
        status: ReleaseStatus::Active,
        locations: vec![
            location("linux", "tar.gz", "https://cdn/linux.tar.gz"),
            location("mac", "zip", "https://cdn/mac.zip"),
        ],
    };
    let aliases = vec![
        alias("tux", "linux", "tar.gz"),
        alias("apple", "mac", "zip"),
        alias("penguin", "linux", "tar.gz"),
        alias("wrong-format", "linux", "zip"),
    ];
    let mut out = "before\n".to_owned();
    write_entries("1.0.0", &data, &aliases, "/get", &mut out);
    assert_eq!(
        out,
        "before\n\
         /get/1.0.0/release https://example.com/1.0.0 302\n\
         /get/1.0.0/linux.tar.gz https://cdn/linux.tar.gz 302\n\
         /get/1.0.0/tux https://cdn/linux.tar.gz 302\n\
         /get/1.0.0/penguin https://cdn/linux.tar.gz 302\n\
         /get/1.0.0/mac.zip https://cdn/mac.zip 302\n\
         /get/1.0.0/apple https://cdn/mac.zip 302\n"
    );
}

#[test]
fn write_entries_of_a_version_without_locations_is_one_line() {
    let data = ReleaseVersionData {
        release_url: "https://example.com/r".to_owned(),
        status: ReleaseStatus::Yanked,
        locations: Vec::new(),
    };
    let mut out = String::new();
    write_entries("latest", &data, &[], "", &mut out);
    assert_eq!(out, "/latest/release https://example.com/r 302\n");
    assert_eq!(data.clone().status, ReleaseStatus::Yanked);
}

#[test]
fn redirects_list_latest_then_each_range_and_version() {
    let mut tree = MuktiReleasesJson::new();
    tree.insert_project("app".to_owned(), MuktiProject::new());
    add(&mut tree, Version::new(1, 0, 0), &["linux"]);
    add(&mut tree, Version::new(1, 1, 0), &["linux"]);
    add(&mut tree, Version::from_parts(2, 0, 0, "rc.1", "").unwrap(), &["linux"]);
    add(&mut tree, Version::new(0, 9, 0), &[]);

    // A release without archives is not added.
    let out = generate_netlify_redirects(&tree, &[alias("tux", "linux", "tar.gz")], "/get/").unwrap();
    assert_eq!(
        out,
        "# Generated by mukti\n\n\
         /get/latest/release https://example.com/1.1.0 302\n\
         /get/latest/linux.tar.gz https://cdn/1.1.0/linux.tar.gz 302\n\
         /get/latest/tux https://cdn/1.1.0/linux.tar.gz 302\n\
         /get/1/release https://example.com/1.1.0 302\n\
         /get/1/linux.tar.gz https://cdn/1.1.0/linux.tar.gz 302\n\
         /get/1/tux https://cdn/1.1.0/linux.tar.gz 302\n\
         /get/1.0.0/release https://example.com/1.0.0 302\n\
         /get/1.0.0/linux.tar.gz https://cdn/1.0.0/linux.tar.gz 302\n\
         /get/1.0.0/tux https://cdn/1.0.0/linux.tar.gz 302\n\
         /get/1.1.0/release https://example.com/1.1.0 302\n\
         /get/1.1.0/linux.tar.gz https://cdn/1.1.0/linux.tar.gz 302\n\
         /get/1.1.0/tux https://cdn/1.1.0/linux.tar.gz 302\n\
         /get/2.0.0-rc.1/release https://example.com/2.0.0-rc.1 302\n\
         /get/2.0.0-rc.1/linux.tar.gz https://cdn/2.0.0-rc.1/linux.tar.gz 302\n\
         /get/2.0.0-rc.1/tux https://cdn/2.0.0-rc.1/linux.tar.gz 302\n"
    );
}

#[test]
fn redirects_of_a_project_without_versions_are_the_heading() {
    let mut tree = MuktiReleasesJson::new();
    tree.insert_project("app".to_owned(), MuktiProject::new());
    assert_eq!(generate_netlify_redirects(&tree, &[], "/").unwrap(), "# Generated by mukti\n\n");
}

#[test]
fn redirects_need_exactly_one_project() {
    let mut tree = MuktiReleasesJson::new();
    assert_eq!(
        generate_netlify_redirects(&tree, &[], "/"),
        Err(ProjectCountError { found: 0 })
    );
    tree.insert_project("a".to_owned(), MuktiProject::new());
    tree.insert_project("b".to_owned(), MuktiProject::new());
    assert_eq!(
        generate_netlify_redirects(&tree, &[], "/"),
        Err(ProjectCountError { found: 2 })
    );
}
