//! The versions of one range, in ascending order, and the latest of them.

use crate::fetch::OutcomeView;
use crate::location::{
    found_views, LocationView, ReleaseLocation, ReleaseVersionData, VersionDataView,
};
use crate::outcomes::KeyedOutcomes;
use crate::version::{version_before, version_order, Version, VersionView};
use vstd::prelude::*;

verus! {

/// A version and its data, as the specifications see it.
pub type EntryView = (VersionView, VersionDataView);

/// The versions of `entries`, in order.
pub open spec fn keys(entries: Seq<EntryView>) -> Seq<VersionView> {
    Seq::new(entries.len(), |i: int| entries[i].0)
}

/// Each of `keys` comes strictly before those behind it.
pub open spec fn ascending(keys: Seq<VersionView>) -> bool {
    forall|i: int, j: int|
        #![trigger keys[i], keys[j]]
        0 <= i < j < keys.len() ==> version_before(keys[i], keys[j])
}

/// Every version of `entries` holds texts that `semver` accepts.
pub open spec fn all_valid(entries: Seq<EntryView>) -> bool {
    forall|i: int| 0 <= i < entries.len() ==> (#[trigger] entries[i]).0.valid()
}

/// The position of the last ordinary release among `keys`, or -1 where all
/// of them are pre-releases.
pub open spec fn last_release(keys: Seq<VersionView>) -> int
    decreases keys.len(),
{
    if keys.len() == 0 {
        -1
    } else if !keys.last().is_prerelease() {
        keys.len() - 1
    } else {
        last_release(keys.drop_last())
    }
}

/// The position of the latest version among `keys`, which are in ascending
/// order: the last ordinary release, or the last of all where there is none.
pub open spec fn latest_position(keys: Seq<VersionView>) -> int {
    if last_release(keys) >= 0 {
        last_release(keys)
    } else {
        keys.len() - 1
    }
}

/// The number of `keys` in front that come strictly before `version`: the
/// place of `version` among them.
pub open spec fn upsert_position(keys: Seq<VersionView>, version: VersionView) -> int
    decreases keys.len(),
{
    if keys.len() == 0 || !version_before(keys[0], version) {
        0
    } else {
        1 + upsert_position(keys.drop_first(), version)
    }
}

/// `entries` with `version` put in its place: an entry at the same version is
/// overwritten, else the new entry goes between its neighbours.
pub open spec fn upserted(
    entries: Seq<EntryView>,
    version: VersionView,
    data: VersionDataView,
) -> Seq<EntryView> {
    let at = upsert_position(keys(entries), version);
    if at < entries.len() && entries[at].0 == version {
        entries.update(at, (version, data))
    } else {
        entries.insert(at, (version, data))
    }
}

/// The locations of all of `entries`, in order.
pub open spec fn entry_locations(entries: Seq<EntryView>) -> Seq<LocationView>
    decreases entries.len(),
{
    if entries.len() == 0 {
        Seq::empty()
    } else {
        entry_locations(entries.drop_last()) + entries.last().1.locations
    }
}

/// Every version of `entries` after a backfill.
pub open spec fn backfilled_entries(
    entries: Seq<EntryView>,
    outcomes: Map<Seq<char>, OutcomeView>,
) -> Seq<EntryView> {
    Seq::new(entries.len(), |i: int| (entries[i].0, entries[i].1.backfilled(outcomes)))
}

/// What a [`ReleaseRangeData`] holds.
pub struct RangeDataView {
    pub latest: VersionView,
    pub is_prerelease: bool,
    pub versions: Seq<EntryView>,
}

impl RangeDataView {
    /// The bucket that holds `entries`, with its latest version worked out.
    pub open spec fn of_entries(entries: Seq<EntryView>) -> RangeDataView {
        RangeDataView {
            latest: keys(entries)[latest_position(keys(entries))],
            is_prerelease: last_release(keys(entries)) < 0,
            versions: entries,
        }
    }

    /// The bucket with one version.
    pub open spec fn first(version: VersionView, data: VersionDataView) -> RangeDataView {
        Self::of_entries(seq![(version, data)])
    }

    /// The bucket after `version` was put in.
    pub open spec fn with_version(
        self,
        version: VersionView,
        data: VersionDataView,
    ) -> RangeDataView {
        Self::of_entries(upserted(self.versions, version, data))
    }

    /// The locations of all versions, in order.
    pub open spec fn locations(self) -> Seq<LocationView> {
        entry_locations(self.versions)
    }

    /// The bucket after a backfill: the versions stay, each location is
    /// treated by itself.
    pub open spec fn backfilled(self, outcomes: Map<Seq<char>, OutcomeView>) -> RangeDataView {
        RangeDataView { versions: backfilled_entries(self.versions, outcomes), ..self }
    }

    /// The bucket is not empty, its versions are in strictly ascending order,
    /// `latest` is the last ordinary release among them, or the last of all
    /// where there is none, and `is_prerelease` tells which.
    pub open spec fn wf(self) -> bool {
        &&& self.versions.len() > 0
        &&& all_valid(self.versions)
        &&& ascending(keys(self.versions))
        &&& self == Self::of_entries(self.versions)
    }
}

/// Where `last_release` points, there is an ordinary release, and only
/// pre-releases follow it.
pub proof fn lemma_last_release(keys: Seq<VersionView>)
    ensures
        -1 <= last_release(keys) < keys.len(),
        last_release(keys) >= 0 ==> !keys[last_release(keys)].is_prerelease(),
        forall|j: int| last_release(keys) < j < keys.len() ==> (#[trigger] keys[j]).is_prerelease(),
    decreases keys.len(),
{
    if keys.len() > 0 && keys.last().is_prerelease() {
        lemma_last_release(keys.drop_last());
        assert forall|j: int| last_release(keys) < j < keys.len() implies (
        #[trigger] keys[j]).is_prerelease() by {
            if j < keys.len() - 1 {
                assert(keys[j] == keys.drop_last()[j]);
            }
        }
    }
}

/// An ordinary release that only pre-releases follow is where `last_release`
/// points.
pub proof fn lemma_last_release_is(keys: Seq<VersionView>, at: int)
    requires
        -1 <= at < keys.len(),
        at >= 0 ==> !keys[at].is_prerelease(),
        forall|j: int| at < j < keys.len() ==> (#[trigger] keys[j]).is_prerelease(),
    ensures
        last_release(keys) == at,
{
    lemma_last_release(keys);
}

/// Where the first `at` keys come before `version` and the next one does not,
/// `at` is the place of `version`.
pub proof fn lemma_upsert_position_is(keys: Seq<VersionView>, version: VersionView, at: int)
    requires
        0 <= at <= keys.len(),
        forall|k: int| 0 <= k < at ==> version_before(#[trigger] keys[k], version),
        at < keys.len() ==> !version_before(keys[at], version),
    ensures
        upsert_position(keys, version) == at,
    decreases keys.len(),
{
    if at > 0 {
        let rest = keys.drop_first();
        lemma_upsert_position_is(rest, version, at - 1);
    }
}

/// The latest version of a bucket is its greatest ordinary release, or its
/// greatest version where it holds pre-releases only: every other version
/// that counts comes strictly before it.
pub proof fn lemma_latest_is_greatest(bucket: RangeDataView, i: int)
    requires
        bucket.wf(),
        0 <= i < bucket.versions.len(),
        bucket.is_prerelease || !bucket.versions[i].0.is_prerelease(),
    ensures
        bucket.is_prerelease <==> forall|k: int|
            0 <= k < bucket.versions.len() ==> (#[trigger] bucket.versions[k]).0.is_prerelease(),
        bucket.is_prerelease == bucket.latest.is_prerelease(),
        exists|at: int|
            0 <= at < bucket.versions.len() && (#[trigger] bucket.versions[at]).0
                == bucket.latest,
        bucket.versions[i].0 == bucket.latest || version_before(
            bucket.versions[i].0,
            bucket.latest,
        ),
{
    let ks = keys(bucket.versions);
    lemma_last_release(ks);
    let at = latest_position(ks);
    assert(bucket.versions[at].0 == bucket.latest);
    if i < at {
        assert(version_before(ks[i], ks[at]));
    } else if i > at {
        assert(ks[i].is_prerelease());
    }
    if bucket.is_prerelease {
        assert forall|k: int| 0 <= k < bucket.versions.len() implies (
        #[trigger] bucket.versions[k]).0.is_prerelease() by {
            assert(ks[k].is_prerelease());
        }
    } else {
        assert(!bucket.versions[last_release(ks)].0.is_prerelease());
    }
}

/// Where the last ordinary release is after one more version was put in at
/// `at`.
proof fn lemma_last_release_insert(keys: Seq<VersionView>, at: int, version: VersionView)
    requires
        0 <= at <= keys.len(),
    ensures
        last_release(keys.insert(at, version)) == (if last_release(keys) >= at {
            last_release(keys) + 1
        } else if !version.is_prerelease() {
            at
        } else {
            last_release(keys)
        }),
{
    let longer = keys.insert(at, version);
    let was = last_release(keys);
    lemma_last_release(keys);
    let now = if was >= at { was + 1 } else if !version.is_prerelease() { at } else { was };
    assert forall|j: int| now < j < longer.len() implies (#[trigger] longer[j]).is_prerelease() by {
        if j > at {
            assert(longer[j] == keys[j - 1]);
        }
    }
    lemma_last_release_is(longer, now);
}

/// Putting a version into a bucket leaves `latest` as it is or makes the
/// version the latest. It becomes the latest only where it is an ordinary
/// release and the bucket had none, or where it is of the kind that `latest`
/// is taken from and the old latest comes strictly before it.
pub proof fn lemma_insert_changes_latest(
    bucket: RangeDataView,
    version: VersionView,
    data: VersionDataView,
)
    requires
        bucket.wf(),
        bucket.with_version(version, data).wf(),
    ensures
        bucket.with_version(version, data).is_prerelease == (bucket.is_prerelease
            && version.is_prerelease()),
        bucket.with_version(version, data).latest == bucket.latest || bucket.with_version(
            version,
            data,
        ).latest == version,
        bucket.with_version(version, data).latest != bucket.latest ==> {
            ||| !version.is_prerelease() && bucket.is_prerelease
            ||| version.is_prerelease() == bucket.is_prerelease && version_before(
                bucket.latest,
                version,
            ) && latest_position(keys(bucket.versions)) < upsert_position(
                keys(bucket.versions),
                version,
            )
        },
{
    let ks = keys(bucket.versions);
    let at = upsert_position(ks, version);
    let after = bucket.with_version(version, data);
    let longer = keys(after.versions);
    lemma_upsert_position_bounds(ks, version);
    lemma_last_release(ks);
    if at < bucket.versions.len() && bucket.versions[at].0 == version {
        assert(longer =~= ks);
        assert(bucket.is_prerelease ==> ks[at].is_prerelease());
    } else {
        assert(longer =~= ks.insert(at, version));
        lemma_last_release_insert(ks, at, version);
        let was = latest_position(ks);
        let now = latest_position(longer);
        if longer[now] != ks[was] {
            if was >= at {
                assert(longer[was + 1] == ks[was]);
            } else {
                assert(longer[was] == ks[was]);
            }
        }
    }
}

/// Putting a version in removes nothing: every entry at another version is
/// still there.
pub proof fn lemma_upserted_keeps(
    entries: Seq<EntryView>,
    version: VersionView,
    data: VersionDataView,
    i: int,
)
    requires
        0 <= i < entries.len(),
        entries[i].0 != version,
    ensures
        upserted(entries, version, data).contains(entries[i]),
        upserted(entries, version, data).contains((version, data)),
{
    let at = upsert_position(keys(entries), version);
    let after = upserted(entries, version, data);
    lemma_upsert_position_bounds(keys(entries), version);
    assert(after[at] == (version, data));
    if at < entries.len() && entries[at].0 == version {
        assert(after[i] == entries[i]);
    } else if i < at {
        assert(after[i] == entries[i]);
    } else {
        assert(after[i + 1] == entries[i]);
    }
}

/// Putting a version in adds nothing else: every entry is the new one or
/// was there before.
pub proof fn lemma_upserted_from(
    entries: Seq<EntryView>,
    version: VersionView,
    data: VersionDataView,
    k: int,
)
    requires
        0 <= k < upserted(entries, version, data).len(),
    ensures
        upserted(entries, version, data)[k] == (version, data) || entries.contains(
            upserted(entries, version, data)[k],
        ),
{
    let at = upsert_position(keys(entries), version);
    let after = upserted(entries, version, data);
    lemma_upsert_position_bounds(keys(entries), version);
    if at < entries.len() && entries[at].0 == version {
        if k != at {
            assert(after[k] == entries[k]);
        }
    } else if k < at {
        assert(after[k] == entries[k]);
    } else if k > at {
        assert(after[k] == entries[k - 1]);
    }
}

/// The place of a version is a position in the sequence or its end.
pub proof fn lemma_upsert_position_bounds(keys: Seq<VersionView>, version: VersionView)
    ensures
        0 <= upsert_position(keys, version) <= keys.len(),
    decreases keys.len(),
{
    if keys.len() > 0 && version_before(keys[0], version) {
        lemma_upsert_position_bounds(keys.drop_first(), version);
    }
}

/// Putting a version into a bucket changes `latest` only if the version is an
/// ordinary release that comes after the latest ordinary release, or if the
/// bucket has no ordinary release and the version comes after the latest
/// version. This leaves out the first ordinary release of a bucket of
/// pre-releases where it does not come after them: it becomes the latest all
/// the same.
pub proof fn lemma_insert_only_raises_latest(
    bucket: RangeDataView,
    version: VersionView,
    data: VersionDataView,
)
    requires
        bucket.wf(),
        bucket.with_version(version, data).wf(),
        !(bucket.is_prerelease && !version.is_prerelease() && !version_before(
            bucket.latest,
            version,
        )),
    ensures
        bucket.with_version(version, data).latest != bucket.latest ==> {
            ||| !version.is_prerelease() && !bucket.is_prerelease && version_before(
                bucket.latest,
                version,
            )
            ||| bucket.is_prerelease && version_before(bucket.latest, version)
        },
        !version_before(bucket.latest, version) ==> bucket.with_version(version, data).latest
            == bucket.latest,
{
    lemma_insert_changes_latest(bucket, version, data);
}

/// The versions of one range.
#[derive(Debug)]
pub struct ReleaseRangeData {
    /// The latest version within this range (can be a prerelease)
    latest: Version,
    /// True if this version range only has prereleases.
    is_prerelease: bool,
    /// All known versions, in ascending order
    versions: Vec<(Version, ReleaseVersionData)>,
}

/// The views of `entries`, in order.
pub open spec fn entry_views(entries: Seq<(Version, ReleaseVersionData)>) -> Seq<EntryView> {
    Seq::new(entries.len(), |i: int| (entries[i].0@, entries[i].1@))
}

impl View for ReleaseRangeData {
    type V = RangeDataView;

    closed spec fn view(&self) -> RangeDataView {
        RangeDataView {
            latest: self.latest@,
            is_prerelease: self.is_prerelease,
            versions: entry_views(self.versions@),
        }
    }
}

/// Puts `version` in its place among `entries`.
fn put_entry(
    entries: &mut Vec<(Version, ReleaseVersionData)>,
    version: Version,
    data: ReleaseVersionData,
)
    requires
        old(entries).len() > 0,
        all_valid(entry_views(old(entries)@)),
        ascending(keys(entry_views(old(entries)@))),
    ensures
        entry_views(final(entries)@) == upserted(entry_views(old(entries)@), version@, data@),
        all_valid(entry_views(final(entries)@)),
        ascending(keys(entry_views(final(entries)@))),
        final(entries).len() > 0,
        forall|k: int|
            0 <= k < old(entries).len() ==> (version_order(
                version@,
                #[trigger] keys(entry_views(old(entries)@))[k],
            ) > 0 <==> k < upsert_position(keys(entry_views(old(entries)@)), version@)),
{
    let ghost before = entries@;
    let ghost views = entry_views(before);
    let ghost ks = keys(views);
    let ghost entry = (version@, data@);
    let mut i: usize = 0;
    while i < entries.len()
        invariant
            i <= entries.len(),
            entries@ == before,
            before == old(entries)@,
            views == entry_views(before),
            ks == keys(views),
            entry == (version@, data@),
            before.len() > 0,
            i > 0 ==> version@.valid(),
            all_valid(views),
            ascending(ks),
            forall|k: int| 0 <= k < i ==> version_before(#[trigger] ks[k], version@),
            forall|k: int| 0 <= k < i ==> version_order(version@, #[trigger] ks[k]) > 0,
        decreases entries.len() - i,
    {
        let sign: i8 = version.precedence(&entries[i].0);
        assert(ks[i as int] == views[i as int].0);
        if sign == 0 {
            proof {
                lemma_upsert_position_is(ks, version@, i as int);
            }
            entries.set(i, (version, data));
            proof {
                assert(keys(entry_views(entries@)) =~= ks);
            }
            return ;
        }
        if sign < 0 {
            proof {
                lemma_upsert_position_is(ks, version@, i as int);
                assert(forall|j: int|
                    i <= j < ks.len() ==> version_before(version@, #[trigger] ks[j]));
            }
            entries.insert(i, (version, data));
            proof {
                assert(entry_views(entries@) =~= views.insert(i as int, entry));
                let after = keys(entry_views(entries@));
                assert(after =~= ks.insert(i as int, version@));
            }
            return ;
        }
        i = i + 1;
    }
    proof {
        lemma_upsert_position_is(ks, version@, i as int);
    }
    entries.push((version, data));
    proof {
        assert(entry_views(entries@) =~= views.insert(i as int, entry));
        let after = keys(entry_views(entries@));
        assert(after =~= ks.push(version@));
    }
}

/// A copy of the latest version among `entries`, and whether all of them are
/// pre-releases.
fn find_latest(entries: &Vec<(Version, ReleaseVersionData)>) -> (found: (Version, bool))
    requires
        entries.len() > 0,
    ensures
        found.0@ == keys(entry_views(entries@))[latest_position(keys(entry_views(entries@)))],
        found.1 == (last_release(keys(entry_views(entries@))) < 0),
{
    let ghost ks = keys(entry_views(entries@));
    let mut j: usize = entries.len();
    while j > 0
        invariant
            j <= entries.len(),
            ks == keys(entry_views(entries@)),
            forall|k: int| j <= k < ks.len() ==> (#[trigger] ks[k]).is_prerelease(),
        decreases j,
    {
        if !entries[j - 1].0.is_prerelease() {
            proof {
                lemma_last_release_is(ks, j - 1);
            }
            return (entries[j - 1].0.clone(), false);
        }
        j = j - 1;
    }
    proof {
        lemma_last_release_is(ks, -1);
    }
    (entries[entries.len() - 1].0.clone(), true)
}

impl Clone for ReleaseRangeData {
    fn clone(&self) -> (copy: Self)
        ensures
            copy@ == self@,
    {
        let mut versions: Vec<(Version, ReleaseVersionData)> = Vec::new();
        let mut i: usize = 0;
        while i < self.versions.len()
            invariant
                i <= self.versions.len(),
                versions.len() == i,
                forall|k: int|
                    0 <= k < i ==> (#[trigger] versions[k]).0@ == self.versions[k].0@
                        && versions[k].1@ == self.versions[k].1@,
            decreases self.versions.len() - i,
        {
            versions.push((self.versions[i].0.clone(), self.versions[i].1.clone()));
            i = i + 1;
        }
        assert(entry_views(versions@) =~= entry_views(self.versions@));
        ReleaseRangeData {
            latest: self.latest.clone(),
            is_prerelease: self.is_prerelease,
            versions,
        }
    }
}

impl ReleaseRangeData {
    /// The invariant of a bucket: see [`RangeDataView::wf`].
    pub open spec fn wf(&self) -> bool {
        self@.wf()
    }

    /// The bucket with one version.
    pub fn new(version: Version, data: ReleaseVersionData) -> (bucket: Self)
        ensures
            bucket.wf(),
            bucket@ == RangeDataView::first(version@, data@),
    {
        let is_prerelease = version.is_prerelease();
        let latest = version.clone();
        let ghost entry = (version@, data@);
        let mut versions: Vec<(Version, ReleaseVersionData)> = Vec::new();
        versions.push((version, data));
        proof {
            let ks = keys(seq![entry]);
            assert(entry_views(versions@) =~= seq![entry]);
            lemma_last_release_is(ks, if is_prerelease { -1 } else { 0 });
        }
        ReleaseRangeData { latest, is_prerelease, versions }
    }

    /// Puts `version` into the bucket, overwriting an entry at the same
    /// version, and works out the latest version anew. A version that is not
    /// above the latest one leaves `latest` as it is, unless it is the first
    /// ordinary release of the bucket.
    pub fn insert(&mut self, version: Version, data: ReleaseVersionData)
        requires
            old(self).wf(),
        ensures
            final(self).wf(),
            final(self)@ == old(self)@.with_version(version@, data@),
            final(self)@.latest == old(self)@.latest || final(self)@.latest == version@,
            final(self)@.latest != old(self)@.latest ==> {
                ||| !version@.is_prerelease() && old(self)@.is_prerelease
                ||| version@.is_prerelease() == old(self)@.is_prerelease && version_order(
                    version@,
                    old(self)@.latest,
                ) > 0 && version_before(old(self)@.latest, version@)
            },
    {
        let ghost ks = keys(self@.versions);
        put_entry(&mut self.versions, version, data);
        let (latest, is_prerelease) = find_latest(&self.versions);
        self.latest = latest;
        self.is_prerelease = is_prerelease;
        proof {
            lemma_last_release(ks);
            lemma_insert_changes_latest(old(self)@, version@, data@);
        }
    }

    /// The latest version: the greatest ordinary release, or the greatest
    /// version where the bucket holds pre-releases only.
    pub fn latest(&self) -> (version: &Version)
        ensures
            version@ == self@.latest,
    {
        &self.latest
    }

    /// Whether the bucket holds pre-releases only.
    pub fn is_prerelease(&self) -> (pre: bool)
        ensures
            pre == self@.is_prerelease,
    {
        self.is_prerelease
    }

    /// The versions with their data, in ascending order.
    pub fn versions(&self) -> (entries: &Vec<(Version, ReleaseVersionData)>)
        ensures
            entry_views(entries@) == self@.versions,
    {
        &self.versions
    }

    /// The data of the latest version.
    pub fn latest_data(&self) -> (data: &ReleaseVersionData)
        requires
            self.wf(),
        ensures
            data@ == self@.versions[latest_position(keys(self@.versions))].1,
    {
        let ghost ks = keys(self@.versions);
        let mut j: usize = self.versions.len();
        while j > 0
            invariant
                j <= self.versions.len(),
                ks == keys(entry_views(self.versions@)),
                forall|k: int| j <= k < ks.len() ==> (#[trigger] ks[k]).is_prerelease(),
            decreases j,
        {
            if !self.versions[j - 1].0.is_prerelease() {
                proof {
                    lemma_last_release_is(ks, j - 1);
                }
                return &self.versions[j - 1].1;
            }
            j = j - 1;
        }
        proof {
            lemma_last_release_is(ks, -1);
        }
        &self.versions[self.versions.len() - 1].1
    }

    /// Appends the locations of all versions to `found`, in order.
    pub fn collect_locations<'a>(&'a self, found: &mut Vec<&'a ReleaseLocation>)
        ensures
            found_views(final(found)@) == found_views(old(found)@) + self@.locations(),
    {
        let ghost all = entry_views(self.versions@);
        let mut i: usize = 0;
        while i < self.versions.len()
            invariant
                i <= self.versions.len(),
                all == entry_views(self.versions@),
                found_views(found@) == found_views(old(found)@) + entry_locations(
                    all.take(i as int),
                ),
            decreases self.versions.len() - i,
        {
            self.versions[i].1.collect_locations(found);
            proof {
                let next = all.take(i + 1);
                assert(next.drop_last() =~= all.take(i as int));
            }
            i = i + 1;
        }
        assert(all.take(i as int) =~= all);
    }

    /// Takes over, for each location, the digests that a backfill fetched
    /// for its URL. The versions and the latest of them stay as they are.
    pub fn backfill(&mut self, outcomes: &KeyedOutcomes)
        requires
            old(self).wf(),
        ensures
            final(self).wf(),
            final(self)@ == old(self)@.backfilled(outcomes@),
    {
        let ghost before = self.versions@;
        let mut i: usize = 0;
        while i < self.versions.len()
            invariant
                i <= self.versions.len(),
                self.versions.len() == before.len(),
                self.latest == old(self).latest,
                self.is_prerelease == old(self).is_prerelease,
                before == old(self).versions@,
                forall|k: int|
                    0 <= k < before.len() ==> (#[trigger] self.versions[k]).0 == before[k].0,
                forall|k: int|
                    0 <= k < i ==> (#[trigger] self.versions[k]).1@ == before[k].1@.backfilled(
                        outcomes@,
                    ),
                forall|k: int|
                    i <= k < before.len() ==> (#[trigger] self.versions[k]).1 == before[k].1,
            decreases self.versions.len() - i,
        {
            self.versions[i].1.backfill(outcomes);
            i = i + 1;
        }
        proof {
            assert(entry_views(self.versions@) =~= backfilled_entries(
                entry_views(before),
                outcomes@,
            ));
            assert(keys(entry_views(self.versions@)) =~= keys(entry_views(before)));
        }
    }

    /// The versions with their data in descending order, as they are written
    /// out.
    pub fn versions_descending(&self) -> (entries: Vec<&(Version, ReleaseVersionData)>)
        ensures
            listed_views(entries@) == self@.versions.reverse(),
    {
        let mut entries: Vec<&(Version, ReleaseVersionData)> = Vec::new();
        let n = self.versions.len();
        let mut i: usize = 0;
        while i < n
            invariant
                i <= n,
                n == self.versions.len(),
                entries.len() == i,
                forall|k: int| 0 <= k < i ==> *(#[trigger] entries[k]) == self.versions[n - 1 - k],
            decreases n - i,
        {
            entries.push(&self.versions[n - 1 - i]);
            i = i + 1;
        }
        entries
    }
}

/// The views of the entries that `listed` refers to, in order.
pub open spec fn listed_views(listed: Seq<&(Version, ReleaseVersionData)>) -> Seq<EntryView> {
    Seq::new(listed.len(), |i: int| (listed[i].0@, listed[i].1@))
}

/// Written out in descending order, each version of a bucket comes strictly
/// after those behind it, in whatever order the versions were put in.
pub proof fn lemma_versions_descending(bucket: RangeDataView, i: int, j: int)
    requires
        bucket.wf(),
        0 <= i < j < bucket.versions.len(),
    ensures
        version_before(bucket.versions.reverse()[j].0, bucket.versions.reverse()[i].0),
{
    let n = bucket.versions.len();
    let ks = keys(bucket.versions);
    assert(version_before(ks[n - 1 - j], ks[n - 1 - i]));
}

} // verus!
