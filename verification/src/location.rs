//! Where the archives of one version can be downloaded, and their digests.

use crate::digest::{is_complete, ChecksumMap, Checksums, ChecksumsView, DigestAlgorithm};
use crate::fetch::OutcomeView;
use crate::outcomes::KeyedOutcomes;
use vstd::prelude::*;

verus! {

/// The status of a release.
#[derive(Clone, Copy, Debug, PartialEq, Eq, Structural)]
pub enum ReleaseStatus {
    /// This release is active.
    Active,
    /// This release was yanked.
    Yanked,
}

/// One archive of a version: what it is for, where it is, and its digests.
#[derive(Debug)]
pub struct ReleaseLocation {
    /// The target string
    pub target: String,
    /// The archive format (e.g. ".tar.gz" or ".zip")
    pub format: String,
    /// The URL the target can be downloaded at
    pub url: String,
    /// The digests of the archive, as far as they are known
    pub checksums: ChecksumMap,
}

/// What a [`ReleaseLocation`] holds.
pub struct LocationView {
    pub target: Seq<char>,
    pub format: Seq<char>,
    pub url: Seq<char>,
    pub checksums: Map<DigestAlgorithm, Seq<char>>,
}

impl View for ReleaseLocation {
    type V = LocationView;

    open spec fn view(&self) -> LocationView {
        LocationView {
            target: self.target@,
            format: self.format@,
            url: self.url@,
            checksums: self.checksums@,
        }
    }
}

impl LocationView {
    /// One of the two digests is missing.
    pub open spec fn needs_checksums(self) -> bool {
        !is_complete(self.checksums)
    }

    /// The location after a backfill that ended as `outcomes` tells, by URL:
    /// where the fetch of its URL succeeded, it has the fresh complete map;
    /// else it is unchanged.
    pub open spec fn backfilled(self, outcomes: Map<Seq<char>, OutcomeView>) -> LocationView {
        if outcomes.contains_key(self.url) && outcomes[self.url] is Ok {
            LocationView { checksums: outcomes[self.url]->Ok_0.checksum_map(), ..self }
        } else {
            self
        }
    }
}

impl Clone for ReleaseLocation {
    fn clone(&self) -> (copy: Self)
        ensures
            copy@ == self@,
    {
        ReleaseLocation {
            target: self.target.clone(),
            format: self.format.clone(),
            url: self.url.clone(),
            checksums: self.checksums.clone(),
        }
    }
}

impl ReleaseLocation {
    /// Whether one of the two digests is missing.
    pub fn needs_checksums(&self) -> (needed: bool)
        ensures
            needed == self@.needs_checksums(),
    {
        !self.checksums.is_complete()
    }

    /// Takes over the digests that a backfill fetched for the URL of this
    /// location, if its fetch succeeded.
    pub fn backfill(&mut self, outcomes: &KeyedOutcomes)
        ensures
            final(self)@ == old(self)@.backfilled(outcomes@),
    {
        match outcomes.get(&self.url) {
            Some(Ok(checksums)) => {
                self.checksums = checksums.to_checksum_map();
            },
            _ => {},
        }
    }

    /// Replaces the digests by the complete map of `checksums`.
    pub fn set_checksums(&mut self, checksums: &Checksums)
        ensures
            final(self)@ == (LocationView { checksums: checksums@.checksum_map(), ..old(self)@ }),
    {
        self.checksums = checksums.to_checksum_map();
    }
}

/// The views of `locations`, in order.
pub open spec fn location_views(locations: Seq<ReleaseLocation>) -> Seq<LocationView> {
    Seq::new(locations.len(), |i: int| locations[i]@)
}

/// The views of the locations that `found` refers to, in order.
pub open spec fn found_views(found: Seq<&ReleaseLocation>) -> Seq<LocationView> {
    Seq::new(found.len(), |i: int| found[i]@)
}

/// Every location of `locations` after a backfill.
pub open spec fn backfilled_locations(
    locations: Seq<LocationView>,
    outcomes: Map<Seq<char>, OutcomeView>,
) -> Seq<LocationView> {
    Seq::new(locations.len(), |i: int| locations[i].backfilled(outcomes))
}

/// One version of a project.
#[derive(Debug)]
pub struct ReleaseVersionData {
    /// Canonical URL for this release
    pub release_url: String,
    /// The status of a release
    pub status: ReleaseStatus,
    /// Release locations
    pub locations: Vec<ReleaseLocation>,
}

/// What a [`ReleaseVersionData`] holds.
pub struct VersionDataView {
    pub release_url: Seq<char>,
    pub status: ReleaseStatus,
    pub locations: Seq<LocationView>,
}

impl View for ReleaseVersionData {
    type V = VersionDataView;

    open spec fn view(&self) -> VersionDataView {
        VersionDataView {
            release_url: self.release_url@,
            status: self.status,
            locations: location_views(self.locations@),
        }
    }
}

impl VersionDataView {
    /// The version after a backfill: each location is treated by itself.
    pub open spec fn backfilled(self, outcomes: Map<Seq<char>, OutcomeView>) -> VersionDataView {
        VersionDataView { locations: backfilled_locations(self.locations, outcomes), ..self }
    }
}

/// A copy of `locations`.
pub fn clone_locations(locations: &Vec<ReleaseLocation>) -> (copy: Vec<ReleaseLocation>)
    ensures
        location_views(copy@) == location_views(locations@),
{
    let mut copy: Vec<ReleaseLocation> = Vec::new();
    let mut i: usize = 0;
    while i < locations.len()
        invariant
            i <= locations.len(),
            copy.len() == i,
            forall|k: int| 0 <= k < i ==> copy[k]@ == locations[k]@,
        decreases locations.len() - i,
    {
        copy.push(locations[i].clone());
        i = i + 1;
    }
    copy
}

impl Clone for ReleaseVersionData {
    fn clone(&self) -> (copy: Self)
        ensures
            copy@ == self@,
    {
        ReleaseVersionData {
            release_url: self.release_url.clone(),
            status: self.status,
            locations: clone_locations(&self.locations),
        }
    }
}

impl ReleaseVersionData {
    /// Appends the locations of this version to `found`, in order.
    pub fn collect_locations<'a>(&'a self, found: &mut Vec<&'a ReleaseLocation>)
        ensures
            found_views(final(found)@) == found_views(old(found)@) + self@.locations,
    {
        let mut i: usize = 0;
        while i < self.locations.len()
            invariant
                i <= self.locations.len(),
                found_views(found@) == found_views(old(found)@) + self@.locations.take(i as int),
            decreases self.locations.len() - i,
        {
            let ghost before = found@;
            found.push(&self.locations[i]);
            proof {
                assert(found_views(found@) =~= found_views(before).push(self.locations[i as int]@));
            }
            i = i + 1;
        }
    }

    /// Takes over, for each location, the digests that a backfill fetched
    /// for its URL.
    pub fn backfill(&mut self, outcomes: &KeyedOutcomes)
        ensures
            final(self)@ == old(self)@.backfilled(outcomes@),
    {
        let ghost before = self.locations@;
        let mut i: usize = 0;
        while i < self.locations.len()
            invariant
                i <= self.locations.len(),
                self.locations.len() == before.len(),
                self.release_url == old(self).release_url,
                self.status == old(self).status,
                before == old(self).locations@,
                forall|k: int|
                    0 <= k < i ==> (#[trigger] self.locations[k])@ == before[k]@.backfilled(
                        outcomes@,
                    ),
                forall|k: int|
                    i <= k < before.len() ==> (#[trigger] self.locations[k]) == before[k],
            decreases self.locations.len() - i,
        {
            self.locations[i].backfill(outcomes);
            i = i + 1;
        }
        assert(location_views(self.locations@) =~= backfilled_locations(
            location_views(before),
            outcomes@,
        ));
    }
}

} // verus!
