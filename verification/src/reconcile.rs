//! The reconciler: what a finished batch of fetches does to the document.
//!
//! Adding a release takes the outcomes in the order of the archives.
//! Backfilling digests takes them by URL.

use crate::command::{Archive, ArchiveView};
use crate::digest::{ChecksumMap, DigestAlgorithm};
use crate::batch::ended_views;
use crate::decimal::{decimal_text, push_decimal};
use crate::fetch::{clone_outcome, outcome_view, FetchOutcome, OutcomeView};
use crate::location::{
    location_views, LocationView, ReleaseLocation, ReleaseStatus, ReleaseVersionData,
    VersionDataView,
};
use crate::outcomes::{outcome_map, KeyedOutcomes};
use crate::tree::{MuktiReleasesJson, TreeView};
use crate::version::Version;
use vstd::prelude::*;

verus! {

/// The URL of the archive called `name` under `archive_prefix`.
pub open spec fn archive_url_text(archive_prefix: Seq<char>, name: Seq<char>) -> Seq<char> {
    archive_prefix + seq!['/'] + name
}

/// The URL of the archive called `name` under `archive_prefix`: the two
/// joined by a slash.
pub fn archive_url(archive_prefix: &str, name: &str) -> (url: String)
    ensures
        url@ == archive_url_text(archive_prefix@, name@),
{
    proof {
        reveal_strlit("/");
    }
    let mut url = archive_prefix.to_owned();
    url.append("/");
    url.append(name);
    assert(url@ =~= archive_url_text(archive_prefix@, name@));
    url
}

/// An archive with its URL and the outcome of fetching it.
#[derive(Debug)]
pub struct ArchiveWithChecksums {
    pub archive: Archive,
    pub url: String,
    /// `Err` if fetching checksums failed.
    pub checksums: FetchOutcome,
}

/// What an [`ArchiveWithChecksums`] holds.
pub struct ArchiveWithChecksumsView {
    pub archive: ArchiveView,
    pub url: Seq<char>,
    pub checksums: OutcomeView,
}

impl View for ArchiveWithChecksums {
    type V = ArchiveWithChecksumsView;

    open spec fn view(&self) -> ArchiveWithChecksumsView {
        ArchiveWithChecksumsView {
            archive: self.archive@,
            url: self.url@,
            checksums: outcome_view(self.checksums),
        }
    }
}

impl ArchiveWithChecksumsView {
    /// The archive under `archive_prefix` with the outcome of its fetch.
    pub open spec fn of(
        archive_prefix: Seq<char>,
        archive: ArchiveView,
        outcome: OutcomeView,
    ) -> Self {
        ArchiveWithChecksumsView {
            archive,
            url: archive_url_text(archive_prefix, archive.name),
            checksums: outcome,
        }
    }

    /// The location of the archive: with both digests where the fetch
    /// succeeded, without digests where it failed.
    pub open spec fn location(self) -> LocationView {
        LocationView {
            target: self.archive.target,
            format: self.archive.format,
            url: self.url,
            checksums: match self.checksums {
                Ok(checksums) => checksums.checksum_map(),
                Err(_) => Map::<DigestAlgorithm, Seq<char>>::empty(),
            },
        }
    }
}

/// The views of `archives`, in order.
pub open spec fn archive_views(archives: Seq<ArchiveWithChecksums>) -> Seq<
    ArchiveWithChecksumsView,
> {
    Seq::new(archives.len(), |i: int| archives[i]@)
}

/// The locations of `archives`, in order.
pub open spec fn archive_locations(archives: Seq<ArchiveWithChecksumsView>) -> Seq<LocationView> {
    Seq::new(archives.len(), |i: int| archives[i].location())
}

/// The URLs of `archives` under `archive_prefix`, in order: the inputs of
/// the batch that fetches them.
pub fn archive_urls(archive_prefix: &str, archives: &Vec<Archive>) -> (urls: Vec<String>)
    ensures
        urls.len() == archives.len(),
        forall|i: int|
            0 <= i < urls.len() ==> (#[trigger] urls[i])@ == archive_url_text(
                archive_prefix@,
                archives[i]@.name,
            ),
{
    let mut urls: Vec<String> = Vec::new();
    let mut i: usize = 0;
    while i < archives.len()
        invariant
            i <= archives.len(),
            urls.len() == i,
            forall|k: int|
                0 <= k < i ==> (#[trigger] urls[k])@ == archive_url_text(
                    archive_prefix@,
                    archives[k]@.name,
                ),
        decreases archives.len() - i,
    {
        urls.push(archive_url(archive_prefix, archives[i].name.as_str()));
        i = i + 1;
    }
    urls
}

/// Pairs each archive with its URL and the outcome of its fetch, in the
/// order of the archives: outcome `i` belongs to archive `i`.
pub fn pair_with_outcomes(
    archive_prefix: &str,
    archives: Vec<Archive>,
    outcomes: Vec<FetchOutcome>,
) -> (paired: Vec<ArchiveWithChecksums>)
    requires
        archives.len() == outcomes.len(),
    ensures
        paired.len() == archives.len(),
        forall|i: int|
            0 <= i < paired.len() ==> (#[trigger] paired[i])@ == ArchiveWithChecksumsView::of(
                archive_prefix@,
                archives[i]@,
                outcome_view(outcomes[i]),
            ),
{
    let mut paired: Vec<ArchiveWithChecksums> = Vec::new();
    let mut i: usize = 0;
    while i < archives.len()
        invariant
            i <= archives.len(),
            archives.len() == outcomes.len(),
            paired.len() == i,
            forall|k: int|
                0 <= k < i ==> (#[trigger] paired[k])@ == ArchiveWithChecksumsView::of(
                    archive_prefix@,
                    archives[k]@,
                    outcome_view(outcomes[k]),
                ),
        decreases archives.len() - i,
    {
        let archive = archives[i].clone();
        let url = archive_url(archive_prefix, archive.name.as_str());
        let checksums = clone_outcome(&outcomes[i]);
        paired.push(ArchiveWithChecksums { archive, url, checksums });
        i = i + 1;
    }
    paired
}

/// The locations of `archives`, in order.
pub fn release_locations(archives: Vec<ArchiveWithChecksums>) -> (locations: Vec<ReleaseLocation>)
    ensures
        location_views(locations@) == archive_locations(archive_views(archives@)),
{
    let mut locations: Vec<ReleaseLocation> = Vec::new();
    let mut i: usize = 0;
    while i < archives.len()
        invariant
            i <= archives.len(),
            locations.len() == i,
            forall|k: int| 0 <= k < i ==> (#[trigger] locations[k])@ == archives[k]@.location(),
        decreases archives.len() - i,
    {
        let archive = &archives[i];
        let checksums = match &archive.checksums {
            Ok(checksums) => checksums.to_checksum_map(),
            Err(_) => ChecksumMap::new(),
        };
        locations.push(
            ReleaseLocation {
                target: archive.archive.target_format.target.clone(),
                format: archive.archive.target_format.format.clone(),
                url: archive.url.clone(),
                checksums,
            },
        );
        i = i + 1;
    }
    locations
}

/// What adding a release did to the document.
#[derive(Clone, Copy, Debug, PartialEq, Eq, Structural)]
pub enum UpdateOutcome {
    /// There was no archive: the document is as it was, and there is nothing
    /// to write.
    Unchanged,
    /// The release was added: the document is to be written.
    Updated,
}

/// The document does not hold exactly one project.
#[derive(Clone, Copy, Debug, PartialEq, Eq, Structural)]
pub struct ProjectCountError {
    /// The number of projects that the document holds.
    pub found: usize,
}

/// The message of the error for a document with `found` projects.
pub open spec fn project_count_message(found: nat) -> Seq<char> {
    "mukti-bin currently only supports one project, "@ + decimal_text(found) + " found"@
}

impl ProjectCountError {
    /// The message of the error.
    pub fn to_string(&self) -> (text: String)
        ensures
            text@ == project_count_message(self.found as nat),
    {
        let mut text = "mukti-bin currently only supports one project, ".to_owned();
        push_decimal(&mut text, self.found as u64);
        text.append(" found");
        text
    }
}

/// The entry of a release with these archives: active, one location for
/// each archive.
pub open spec fn release_entry(
    release_url: Seq<char>,
    archives: Seq<ArchiveWithChecksumsView>,
) -> VersionDataView {
    VersionDataView {
        release_url,
        status: ReleaseStatus::Active,
        locations: archive_locations(archives),
    }
}

/// Adds the release `version` with `archives` to the only project of the
/// document.
///
/// Without archives nothing happens at all. Else the document must hold
/// exactly one project. The version goes into the bucket of its range, which
/// is made where the range has none, in place of an entry at the same
/// version. An archive whose fetch failed gets a location without digests.
/// The latest version of the bucket and the latest range of the project are
/// worked out anew.
pub fn update_release_json(
    release_json: &mut MuktiReleasesJson,
    release_url: &str,
    version: &Version,
    archives: Vec<ArchiveWithChecksums>,
) -> (r: Result<UpdateOutcome, ProjectCountError>)
    requires
        old(release_json).wf(),
    ensures
        final(release_json).wf(),
        archives.len() == 0 ==> r == Ok::<UpdateOutcome, ProjectCountError>(
            UpdateOutcome::Unchanged,
        ) && final(release_json)@ == old(release_json)@,
        archives.len() > 0 && old(release_json)@.projects.len() != 1 ==> r == Err::<
            UpdateOutcome,
            ProjectCountError,
        >(ProjectCountError { found: old(release_json)@.projects.len() as usize })
            && final(release_json)@ == old(release_json)@,
        archives.len() > 0 && old(release_json)@.projects.len() == 1 ==> r == Ok::<
            UpdateOutcome,
            ProjectCountError,
        >(UpdateOutcome::Updated) && final(release_json)@.projects == seq![
            (
                old(release_json)@.projects[0].0,
                old(release_json)@.projects[0].1.with_release(
                    version@,
                    release_entry(release_url@, archive_views(archives@)),
                ),
            ),
        ],
{
    if archives.len() == 0 {
        return Ok(UpdateOutcome::Unchanged);
    }
    if release_json.project_count() != 1 {
        return Err(ProjectCountError { found: release_json.project_count() });
    }
    let data = ReleaseVersionData {
        release_url: release_url.to_owned(),
        status: ReleaseStatus::Active,
        locations: release_locations(archives),
    };
    release_json.add_release_to_only_project(version.clone(), data);
    Ok(UpdateOutcome::Updated)
}

/// The URLs of `locations`, in order.
pub open spec fn urls_of(locations: Seq<LocationView>) -> Seq<Seq<char>> {
    Seq::new(locations.len(), |i: int| locations[i].url)
}

/// `urls` without repetitions: each URL stands where it stood first.
pub open spec fn distinct(urls: Seq<Seq<char>>) -> Seq<Seq<char>>
    decreases urls.len(),
{
    if urls.len() == 0 {
        Seq::empty()
    } else if distinct(urls.drop_last()).contains(urls.last()) {
        distinct(urls.drop_last())
    } else {
        distinct(urls.drop_last()).push(urls.last())
    }
}

/// The views of `urls`, in order.
pub open spec fn url_views(urls: Seq<String>) -> Seq<Seq<char>> {
    Seq::new(urls.len(), |i: int| urls[i]@)
}

/// `distinct` keeps every URL, and keeps it once.
pub proof fn lemma_distinct(urls: Seq<Seq<char>>)
    ensures
        forall|url: Seq<char>| distinct(urls).contains(url) <==> urls.contains(url),
        forall|i: int, j: int|
            #![trigger distinct(urls)[i], distinct(urls)[j]]
            0 <= i < j < distinct(urls).len() ==> distinct(urls)[i] != distinct(urls)[j],
        distinct(urls).len() <= urls.len(),
    decreases urls.len(),
{
    if urls.len() > 0 {
        let front = urls.drop_last();
        let kept = distinct(front);
        lemma_distinct(front);
        assert forall|url: Seq<char>| distinct(urls).contains(url) <==> urls.contains(url) by {
            if urls.contains(url) {
                let i = choose|i: int| 0 <= i < urls.len() && urls[i] == url;
                if i < front.len() {
                    assert(front[i] == url);
                    assert(front.contains(url));
                    let k = choose|k: int| 0 <= k < kept.len() && kept[k] == url;
                    assert(distinct(urls)[k] == url);
                } else if !kept.contains(urls.last()) {
                    assert(distinct(urls)[kept.len() as int] == url);
                }
            }
            if distinct(urls).contains(url) {
                let k = choose|k: int| 0 <= k < distinct(urls).len() && distinct(urls)[k] == url;
                if k < kept.len() {
                    assert(front.contains(url));
                    let i = choose|i: int| 0 <= i < front.len() && front[i] == url;
                    assert(urls[i] == url);
                } else {
                    assert(urls[urls.len() - 1] == url);
                }
            }
        }
    }
}

/// The URLs that a backfill has to fetch: those of the locations that lack a
/// digest, each once, in the order in which they first occur.
pub fn backfill_urls(release_json: &MuktiReleasesJson) -> (urls: Vec<String>)
    ensures
        url_views(urls@) == distinct(urls_of(release_json@.locations_without_checksums())),
{
    let found = release_json.all_locations_without_checksums();
    let ghost all = urls_of(release_json@.locations_without_checksums());
    let mut urls: Vec<String> = Vec::new();
    let mut i: usize = 0;
    while i < found.len()
        invariant
            i <= found.len(),
            all.len() == found.len(),
            forall|k: int| 0 <= k < found.len() ==> (#[trigger] found[k])@.url == all[k],
            url_views(urls@) == distinct(all.take(i as int)),
        decreases found.len() - i,
    {
        let ghost before = urls@;
        proof {
            let next = all.take(i + 1);
            assert(next.drop_last() =~= all.take(i as int));
        }
        if !contains_url(&urls, &found[i].url) {
            urls.push(found[i].url.clone());
            assert(url_views(urls@) =~= url_views(before).push(found[i as int]@.url));
        }
        i = i + 1;
    }
    assert(all.take(i as int) =~= all);
    urls
}

/// Whether `url` is among `urls`.
fn contains_url(urls: &Vec<String>, url: &String) -> (found: bool)
    ensures
        found == url_views(urls@).contains(url@),
{
    let mut i: usize = 0;
    while i < urls.len()
        invariant
            i <= urls.len(),
            forall|k: int| 0 <= k < i ==> (#[trigger] urls[k])@ != url@,
        decreases urls.len() - i,
    {
        if urls[i] == *url {
            assert(url_views(urls@)[i as int] == url@);
            return true;
        }
        i = i + 1;
    }
    false
}

/// The outcomes of a batch by URL: outcome `i` is that of URL `i`.
pub open spec fn keyed(urls: Seq<Seq<char>>, outcomes: Seq<OutcomeView>) -> Map<
    Seq<char>,
    OutcomeView,
> {
    outcome_map(Seq::new(urls.len(), |i: int| (urls[i], outcomes[i])))
}

/// Where no URL is repeated, each URL is found with its own outcome, and
/// nothing else is found.
pub proof fn lemma_keyed_lookup(urls: Seq<Seq<char>>, outcomes: Seq<OutcomeView>, i: int)
    requires
        urls.len() == outcomes.len(),
        0 <= i < urls.len(),
        forall|a: int, b: int| 0 <= a < b < urls.len() ==> urls[a] != urls[b],
    ensures
        keyed(urls, outcomes).contains_key(urls[i]),
        keyed(urls, outcomes)[urls[i]] == outcomes[i],
        forall|url: Seq<char>| keyed(urls, outcomes).contains_key(url) ==> urls.contains(url),
    decreases urls.len(),
{
    let pairs = Seq::new(urls.len(), |k: int| (urls[k], outcomes[k]));
    let front = Seq::new(
        (urls.len() - 1) as nat,
        |k: int| (urls.drop_last()[k], outcomes.drop_last()[k]),
    );
    assert(pairs.drop_last() =~= front);
    if urls.len() > 1 {
        let j = if i < urls.len() - 1 { i } else { 0 };
        lemma_keyed_lookup(urls.drop_last(), outcomes.drop_last(), j);
    }
    assert forall|url: Seq<char>| keyed(urls, outcomes).contains_key(url) implies urls.contains(
        url,
    ) by {
        if url == urls.last() {
            assert(urls[urls.len() - 1] == url);
        } else {
            assert(outcome_map(front).contains_key(url));
            if urls.len() > 1 {
                assert(urls.drop_last().contains(url));
                let k = choose|k: int|
                    0 <= k < urls.drop_last().len() && urls.drop_last()[k] == url;
                assert(urls[k] == url);
            }
        }
    }
}

/// Collects the outcomes of a batch by URL: outcome `i` is that of URL `i`.
pub fn key_by_url(urls: Vec<String>, outcomes: Vec<FetchOutcome>) -> (by_url: KeyedOutcomes)
    requires
        urls.len() == outcomes.len(),
    ensures
        by_url@ == keyed(url_views(urls@), ended_views(outcomes@)),
{
    let ghost pairs = Seq::new(
        urls.len() as nat,
        |i: int| (url_views(urls@)[i], ended_views(outcomes@)[i]),
    );
    let mut by_url = KeyedOutcomes::new();
    let mut i: usize = 0;
    while i < urls.len()
        invariant
            i <= urls.len(),
            urls.len() == outcomes.len(),
            pairs == Seq::new(
                urls.len() as nat,
                |i: int| (url_views(urls@)[i], ended_views(outcomes@)[i]),
            ),
            by_url@ == outcome_map(pairs.take(i as int)),
        decreases urls.len() - i,
    {
        proof {
            let next = pairs.take(i + 1);
            assert(next.drop_last() =~= pairs.take(i as int));
        }
        by_url.insert(urls[i].clone(), clone_outcome(&outcomes[i]));
        i = i + 1;
    }
    assert(pairs.take(i as int) =~= pairs);
    by_url
}

/// Takes the outcomes of a backfill into the document: every location whose
/// URL was fetched with success gets the fresh complete checksum map, in
/// place of what it had; every other location is left as it was.
pub fn backfill_checksums(release_json: &mut MuktiReleasesJson, outcomes: &KeyedOutcomes)
    requires
        old(release_json).wf(),
    ensures
        final(release_json).wf(),
        final(release_json)@ == old(release_json)@.backfilled(outcomes@),
{
    release_json.backfill(outcomes);
}

} // verus!
