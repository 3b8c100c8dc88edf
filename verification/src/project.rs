//! A project: its buckets by version range, in ascending order, and the
//! latest range that has an ordinary release.

use crate::bucket::{
    ascending, entry_views, keys, lemma_upsert_position_is, lemma_upserted_from, listed_views,
    upserted, EntryView, RangeDataView, ReleaseRangeData,
};
use crate::fetch::OutcomeView;
use crate::location::{
    found_views, LocationView, ReleaseLocation, ReleaseVersionData, VersionDataView,
};
use crate::outcomes::KeyedOutcomes;
use crate::range::VersionRange;
use crate::version::{version_before, Version, VersionView};
use vstd::prelude::*;

verus! {

/// A range and its bucket, as the specifications see it.
pub type RangeEntryView = (VersionRange, RangeDataView);

/// Each range of `ranges` comes strictly before those behind it.
pub open spec fn ranges_ascending(ranges: Seq<RangeEntryView>) -> bool {
    forall|i: int, j: int|
        #![trigger ranges[i], ranges[j]]
        0 <= i < j < ranges.len() ==> ranges[i].0.before(ranges[j].0)
}

/// The position of the last bucket of `ranges` that has an ordinary release,
/// or -1 where none has.
pub open spec fn last_stable(ranges: Seq<RangeEntryView>) -> int
    decreases ranges.len(),
{
    if ranges.len() == 0 {
        -1
    } else if !ranges.last().1.is_prerelease {
        ranges.len() - 1
    } else {
        last_stable(ranges.drop_last())
    }
}

/// The latest range of `ranges`, which are in ascending order: the last one
/// whose bucket has an ordinary release.
pub open spec fn latest_range(ranges: Seq<RangeEntryView>) -> Option<VersionRange> {
    if last_stable(ranges) >= 0 {
        Some(ranges[last_stable(ranges)].0)
    } else {
        None
    }
}

/// The number of `ranges` in front that come strictly before `range`: the
/// place of `range` among them.
pub open spec fn range_position(ranges: Seq<RangeEntryView>, range: VersionRange) -> int
    decreases ranges.len(),
{
    if ranges.len() == 0 || !ranges[0].0.before(range) {
        0
    } else {
        1 + range_position(ranges.drop_first(), range)
    }
}

/// `ranges` after `version` was put into the bucket of its range. The bucket
/// is made where the range has none yet.
pub open spec fn with_release(
    ranges: Seq<RangeEntryView>,
    version: VersionView,
    data: VersionDataView,
) -> Seq<RangeEntryView> {
    let range = VersionRange::of_version(version);
    let at = range_position(ranges, range);
    if at < ranges.len() && ranges[at].0 == range {
        ranges.update(at, (range, ranges[at].1.with_version(version, data)))
    } else {
        ranges.insert(at, (range, RangeDataView::first(version, data)))
    }
}

/// The versions of all of `ranges` with their data, in order.
pub open spec fn all_entries(ranges: Seq<RangeEntryView>) -> Seq<EntryView>
    decreases ranges.len(),
{
    if ranges.len() == 0 {
        Seq::empty()
    } else {
        all_entries(ranges.drop_last()) + ranges.last().1.versions
    }
}

/// The locations of all of `ranges`, in order.
pub open spec fn range_locations(ranges: Seq<RangeEntryView>) -> Seq<LocationView>
    decreases ranges.len(),
{
    if ranges.len() == 0 {
        Seq::empty()
    } else {
        range_locations(ranges.drop_last()) + ranges.last().1.locations()
    }
}

/// Every bucket of `ranges` after a backfill.
pub open spec fn backfilled_ranges(
    ranges: Seq<RangeEntryView>,
    outcomes: Map<Seq<char>, OutcomeView>,
) -> Seq<RangeEntryView> {
    Seq::new(ranges.len(), |i: int| (ranges[i].0, ranges[i].1.backfilled(outcomes)))
}

/// The bucket of `entry` is well formed, and every version in it is of the
/// range of `entry`.
pub open spec fn bucket_fits(entry: RangeEntryView) -> bool {
    &&& entry.1.wf()
    &&& forall|k: int|
        0 <= k < entry.1.versions.len() ==> VersionRange::of_version(
            (#[trigger] entry.1.versions[k]).0,
        ) == entry.0
}

/// What a [`MuktiProject`] holds.
pub struct ProjectView {
    pub latest: Option<VersionRange>,
    pub ranges: Seq<RangeEntryView>,
}

impl ProjectView {
    /// The project that holds `ranges`, with its latest range worked out.
    pub open spec fn of_ranges(ranges: Seq<RangeEntryView>) -> ProjectView {
        ProjectView { latest: latest_range(ranges), ranges }
    }

    /// The project after `version` was added.
    pub open spec fn with_release(
        self,
        version: VersionView,
        data: VersionDataView,
    ) -> ProjectView {
        Self::of_ranges(with_release(self.ranges, version, data))
    }

    /// The project after `entries` were added one after the other.
    pub open spec fn with_releases(self, entries: Seq<EntryView>) -> ProjectView
        decreases entries.len(),
    {
        if entries.len() == 0 {
            self
        } else {
            self.with_releases(entries.drop_last()).with_release(
                entries.last().0,
                entries.last().1,
            )
        }
    }

    /// The project that comes of adding `entries` one after the other to a
    /// project without versions.
    pub open spec fn of_versions(entries: Seq<EntryView>) -> ProjectView {
        Self::of_ranges(Seq::empty()).with_releases(entries)
    }

    /// All versions with their data: range after range, and the versions of
    /// a range in ascending order.
    pub open spec fn all_versions(self) -> Seq<EntryView> {
        all_entries(self.ranges)
    }

    /// The locations of all buckets, in order.
    pub open spec fn locations(self) -> Seq<LocationView> {
        range_locations(self.ranges)
    }

    /// The project after a backfill: the buckets and the latest range stay,
    /// each location is treated by itself.
    pub open spec fn backfilled(self, outcomes: Map<Seq<char>, OutcomeView>) -> ProjectView {
        ProjectView { ranges: backfilled_ranges(self.ranges, outcomes), ..self }
    }

    /// The ranges are in strictly ascending order, every bucket is well
    /// formed and holds versions of its range only, and `latest` is the last
    /// range whose bucket has an ordinary release, if there is one.
    pub open spec fn wf(self) -> bool {
        &&& ranges_ascending(self.ranges)
        &&& forall|i: int| 0 <= i < self.ranges.len() ==> bucket_fits(#[trigger] self.ranges[i])
        &&& self.latest == latest_range(self.ranges)
    }
}

/// Where `last_stable` points, the bucket has an ordinary release, and the
/// buckets behind it have none.
pub proof fn lemma_last_stable(ranges: Seq<RangeEntryView>)
    ensures
        -1 <= last_stable(ranges) < ranges.len(),
        last_stable(ranges) >= 0 ==> !ranges[last_stable(ranges)].1.is_prerelease,
        forall|j: int|
            last_stable(ranges) < j < ranges.len() ==> (#[trigger] ranges[j]).1.is_prerelease,
    decreases ranges.len(),
{
    if ranges.len() > 0 && ranges.last().1.is_prerelease {
        lemma_last_stable(ranges.drop_last());
        assert forall|j: int| last_stable(ranges) < j < ranges.len() implies (
        #[trigger] ranges[j]).1.is_prerelease by {
            if j < ranges.len() - 1 {
                assert(ranges[j] == ranges.drop_last()[j]);
            }
        }
    }
}

/// A bucket with an ordinary release that only buckets without one follow is
/// where `last_stable` points.
pub proof fn lemma_last_stable_is(ranges: Seq<RangeEntryView>, at: int)
    requires
        -1 <= at < ranges.len(),
        at >= 0 ==> !ranges[at].1.is_prerelease,
        forall|j: int| at < j < ranges.len() ==> (#[trigger] ranges[j]).1.is_prerelease,
    ensures
        last_stable(ranges) == at,
{
    lemma_last_stable(ranges);
}

/// Where the first `at` ranges come before `range` and the next one does
/// not, `at` is the place of `range`.
pub proof fn lemma_range_position_is(ranges: Seq<RangeEntryView>, range: VersionRange, at: int)
    requires
        0 <= at <= ranges.len(),
        forall|k: int| 0 <= k < at ==> (#[trigger] ranges[k]).0.before(range),
        at < ranges.len() ==> !ranges[at].0.before(range),
    ensures
        range_position(ranges, range) == at,
    decreases ranges.len(),
{
    if at > 0 {
        let rest = ranges.drop_first();
        lemma_range_position_is(rest, range, at - 1);
    }
}

/// Adding two runs of versions one after the other is adding them in one
/// run.
proof fn lemma_with_releases_concat(start: ProjectView, first: Seq<EntryView>, second: Seq<EntryView>)
    ensures
        start.with_releases(first + second) == start.with_releases(first).with_releases(second),
    decreases second.len(),
{
    if second.len() == 0 {
        assert(first + second =~= first);
    } else {
        assert((first + second).drop_last() =~= first + second.drop_last());
        lemma_with_releases_concat(start, first, second.drop_last());
    }
}

/// Adding the first `upto` versions of a bucket, in ascending order, to a
/// project that holds lower ranges only puts the bucket with these versions
/// behind them.
proof fn lemma_refill_bucket(
    lower: Seq<RangeEntryView>,
    range: VersionRange,
    entries: Seq<EntryView>,
    upto: int,
)
    requires
        forall|k: int| 0 <= k < lower.len() ==> (#[trigger] lower[k]).0.before(range),
        ascending(keys(entries)),
        forall|k: int|
            0 <= k < entries.len() ==> VersionRange::of_version((#[trigger] entries[k]).0)
                == range,
        1 <= upto <= entries.len(),
    ensures
        ProjectView::of_ranges(lower).with_releases(entries.take(upto)) == ProjectView::of_ranges(
            lower.push((range, RangeDataView::of_entries(entries.take(upto)))),
        ),
    decreases upto,
{
    let start = ProjectView::of_ranges(lower);
    let (version, data) = entries[upto - 1];
    assert(entries.take(upto).drop_last() =~= entries.take(upto - 1));
    assert(entries.take(upto).last() == entries[upto - 1]);
    if upto == 1 {
        assert(start.with_releases(entries.take(0)) == start);
        lemma_range_position_is(lower, range, lower.len() as int);
        assert(entries.take(1) =~= seq![(version, data)]);
        assert(with_release(lower, version, data) =~= lower.push(
            (range, RangeDataView::of_entries(entries.take(1))),
        ));
    } else {
        lemma_refill_bucket(lower, range, entries, upto - 1);
        let filled = entries.take(upto - 1);
        let before = lower.push((range, RangeDataView::of_entries(filled)));
        assert forall|k: int| 0 <= k < lower.len() implies (#[trigger] before[k]).0.before(
            range,
        ) by {
            assert(before[k] == lower[k]);
        }
        lemma_range_position_is(before, range, lower.len() as int);
        assert forall|k: int| 0 <= k < upto - 1 implies version_before(
            #[trigger] keys(filled)[k],
            version,
        ) by {
            assert(keys(filled)[k] == keys(entries)[k]);
            assert(keys(entries)[upto - 1] == version);
        }
        lemma_upsert_position_is(keys(filled), version, upto - 1);
        assert(upserted(filled, version, data) =~= entries.take(upto));
        assert(with_release(before, version, data) =~= lower.push(
            (range, RangeDataView::of_entries(entries.take(upto))),
        ));
    }
}

/// Adding all versions of the first `upto` ranges of a project, in order, to
/// a project without versions gives these ranges again.
proof fn lemma_rebuild_ranges(project: ProjectView, upto: int)
    requires
        project.wf(),
        0 <= upto <= project.ranges.len(),
    ensures
        ProjectView::of_versions(all_entries(project.ranges.take(upto))) == ProjectView::of_ranges(
            project.ranges.take(upto),
        ),
    decreases upto,
{
    let ranges = project.ranges;
    if upto == 0 {
        assert(ranges.take(0) =~= Seq::empty());
    } else {
        lemma_rebuild_ranges(project, upto - 1);
        let lower = ranges.take(upto - 1);
        let (range, bucket) = ranges[upto - 1];
        assert(ranges.take(upto).drop_last() =~= lower);
        lemma_with_releases_concat(
            ProjectView::of_ranges(Seq::empty()),
            all_entries(lower),
            bucket.versions,
        );
        lemma_refill_bucket(lower, range, bucket.versions, bucket.versions.len() as int);
        assert(bucket.versions.take(bucket.versions.len() as int) =~= bucket.versions);
        assert(lower.push((range, bucket)) =~= ranges.take(upto));
    }
}

/// A project is what comes of adding all its versions, in their order, to a
/// project without versions: taking a project apart and building it again
/// gives the same project.
pub proof fn lemma_rebuild(project: ProjectView)
    requires
        project.wf(),
    ensures
        ProjectView::of_versions(project.all_versions()) == project,
{
    lemma_rebuild_ranges(project, project.ranges.len() as int);
    assert(project.ranges.take(project.ranges.len() as int) =~= project.ranges);
}

/// The place of a range is a position in the sequence or its end.
pub proof fn lemma_range_position_bounds(ranges: Seq<RangeEntryView>, range: VersionRange)
    ensures
        0 <= range_position(ranges, range) <= ranges.len(),
    decreases ranges.len(),
{
    if ranges.len() > 0 && ranges[0].0.before(range) {
        lemma_range_position_bounds(ranges.drop_first(), range);
    }
}

/// Adding a version removes no range: every range is still there, with its
/// bucket as it was unless it is the range of the version.
pub proof fn lemma_with_release_keeps(
    ranges: Seq<RangeEntryView>,
    version: VersionView,
    data: VersionDataView,
    i: int,
)
    requires
        0 <= i < ranges.len(),
    ensures
        exists|k: int|
            0 <= k < with_release(ranges, version, data).len() && (#[trigger] with_release(
                ranges,
                version,
                data,
            )[k]).0 == ranges[i].0 && (ranges[i].0 != VersionRange::of_version(version)
                ==> with_release(ranges, version, data)[k].1 == ranges[i].1),
{
    let range = VersionRange::of_version(version);
    let at = range_position(ranges, range);
    let after = with_release(ranges, version, data);
    lemma_range_position_bounds(ranges, range);
    if at < ranges.len() && ranges[at].0 == range {
        assert(after[i].0 == ranges[i].0);
    } else if i < at {
        assert(after[i] == ranges[i]);
    } else {
        assert(after[i + 1] == ranges[i]);
    }
}

/// The latest range of a project is the greatest range whose bucket has an
/// ordinary release: every other such range comes strictly before it. There
/// is none exactly where no bucket has an ordinary release.
pub proof fn lemma_latest_range_is_greatest(project: ProjectView, i: int)
    requires
        project.wf(),
        0 <= i < project.ranges.len(),
    ensures
        project.latest is None <==> forall|k: int|
            0 <= k < project.ranges.len() ==> (#[trigger] project.ranges[k]).1.is_prerelease,
        project.latest matches Some(latest) ==> exists|at: int|
            0 <= at < project.ranges.len() && (#[trigger] project.ranges[at]).0 == latest
                && !project.ranges[at].1.is_prerelease,
        !project.ranges[i].1.is_prerelease ==> (project.latest matches Some(latest)
            && (project.ranges[i].0 == latest || project.ranges[i].0.before(latest))),
{
    let ranges = project.ranges;
    lemma_last_stable(ranges);
    let at = last_stable(ranges);
}

/// A project.
#[derive(Debug)]
pub struct MuktiProject {
    /// The latest version range (key in the releases field) without any pre-releases.
    latest: Option<VersionRange>,
    /// Version range (major or minor version) and release data about it, in
    /// ascending order
    ranges: Vec<(VersionRange, ReleaseRangeData)>,
}

/// The views of `ranges`, in order.
pub open spec fn range_views(ranges: Seq<(VersionRange, ReleaseRangeData)>) -> Seq<RangeEntryView> {
    Seq::new(ranges.len(), |i: int| (ranges[i].0, ranges[i].1@))
}

impl View for MuktiProject {
    type V = ProjectView;

    closed spec fn view(&self) -> ProjectView {
        ProjectView { latest: self.latest, ranges: range_views(self.ranges@) }
    }
}

/// Puts `version` into the bucket of its range among `ranges`.
fn put_release(
    ranges: &mut Vec<(VersionRange, ReleaseRangeData)>,
    version: Version,
    data: ReleaseVersionData,
)
    requires
        ranges_ascending(range_views(old(ranges)@)),
        forall|i: int|
            0 <= i < old(ranges).len() ==> bucket_fits(#[trigger] range_views(old(ranges)@)[i]),
    ensures
        range_views(final(ranges)@) == with_release(range_views(old(ranges)@), version@, data@),
        ranges_ascending(range_views(final(ranges)@)),
        forall|i: int|
            0 <= i < final(ranges).len() ==> bucket_fits(
                #[trigger] range_views(final(ranges)@)[i],
            ),
{
    let range = VersionRange::from_version(&version);
    let ghost before = ranges@;
    let ghost views = range_views(before);
    let ghost bucket = RangeDataView::first(version@, data@);
    let mut i: usize = 0;
    while i < ranges.len()
        invariant
            i <= ranges.len(),
            ranges@ == before,
            before == old(ranges)@,
            views == range_views(before),
            range == VersionRange::of_version(version@),
            bucket == RangeDataView::first(version@, data@),
            ranges_ascending(views),
            forall|k: int| 0 <= k < views.len() ==> bucket_fits(#[trigger] views[k]),
            forall|k: int| 0 <= k < i ==> (#[trigger] views[k]).0.before(range),
        decreases ranges.len() - i,
    {
        let sign: i8 = range.order_sign(&ranges[i].0);
        if sign == 0 {
            proof {
                lemma_range_position_is(views, range, i as int);
            }
            let ghost old_bucket = ranges[i as int].1@;
            ranges[i].1.insert(version, data);
            proof {
                let now = range_views(ranges@);
                assert(now =~= views.update(
                    i as int,
                    (range, old_bucket.with_version(version@, data@)),
                ));
                assert forall|k: int| 0 <= k < now.len() implies bucket_fits(#[trigger] now[k]) by {
                    if k == i {
                        let put = upserted(old_bucket.versions, version@, data@);
                        assert forall|m: int| 0 <= m < put.len() implies VersionRange::of_version(
                            (#[trigger] put[m]).0,
                        ) == range by {
                            lemma_upserted_from(old_bucket.versions, version@, data@, m);
                        }
                    }
                }
            }
            return ;
        }
        if sign < 0 {
            proof {
                lemma_range_position_is(views, range, i as int);
            }
            let fresh = ReleaseRangeData::new(version, data);
            ranges.insert(i, (range, fresh));
            proof {
                let now = range_views(ranges@);
                assert(now =~= views.insert(i as int, (range, bucket)));
            }
            return ;
        }
        i = i + 1;
    }
    proof {
        lemma_range_position_is(views, range, i as int);
    }
    let fresh = ReleaseRangeData::new(version, data);
    ranges.push((range, fresh));
    proof {
        let now = range_views(ranges@);
        assert(now =~= views.insert(i as int, (range, bucket)));
    }
}

/// The last range among `ranges` whose bucket has an ordinary release.
fn find_latest_range(ranges: &Vec<(VersionRange, ReleaseRangeData)>) -> (latest: Option<
    VersionRange,
>)
    ensures
        latest == latest_range(range_views(ranges@)),
{
    let ghost views = range_views(ranges@);
    let mut j: usize = ranges.len();
    while j > 0
        invariant
            j <= ranges.len(),
            views == range_views(ranges@),
            forall|k: int| j <= k < views.len() ==> (#[trigger] views[k]).1.is_prerelease,
        decreases j,
    {
        if !ranges[j - 1].1.is_prerelease() {
            proof {
                lemma_last_stable_is(views, j - 1);
            }
            return Some(ranges[j - 1].0);
        }
        j = j - 1;
    }
    proof {
        lemma_last_stable_is(views, -1);
    }
    None
}

impl Clone for MuktiProject {
    fn clone(&self) -> (copy: Self)
        ensures
            copy@ == self@,
    {
        let mut ranges: Vec<(VersionRange, ReleaseRangeData)> = Vec::new();
        let mut i: usize = 0;
        while i < self.ranges.len()
            invariant
                i <= self.ranges.len(),
                ranges.len() == i,
                forall|k: int|
                    0 <= k < i ==> (#[trigger] ranges[k]).0 == self.ranges[k].0 && ranges[k].1@
                        == self.ranges[k].1@,
            decreases self.ranges.len() - i,
        {
            ranges.push((self.ranges[i].0, self.ranges[i].1.clone()));
            i = i + 1;
        }
        assert(range_views(ranges@) =~= range_views(self.ranges@));
        MuktiProject { latest: self.latest, ranges }
    }
}

impl MuktiProject {
    /// The invariant of a project: see [`ProjectView::wf`].
    pub open spec fn wf(&self) -> bool {
        self@.wf()
    }

    /// A project without versions.
    pub fn new() -> (project: Self)
        ensures
            project.wf(),
            project@ == (ProjectView { latest: None, ranges: Seq::empty() }),
    {
        let project = MuktiProject { latest: None, ranges: Vec::new() };
        assert(project@.ranges =~= Seq::empty());
        project
    }

    /// Adds `version` to the bucket of its range, which is made where the
    /// range has none, overwriting an entry at the same version. The latest
    /// version of the bucket and the latest range are worked out anew.
    pub fn add_release(&mut self, version: Version, data: ReleaseVersionData)
        requires
            old(self).wf(),
        ensures
            final(self).wf(),
            final(self)@ == old(self)@.with_release(version@, data@),
    {
        put_release(&mut self.ranges, version, data);
        self.latest = find_latest_range(&self.ranges);
    }

    /// The project that comes of adding `entries` one after the other to a
    /// project without versions.
    pub fn from_versions(entries: Vec<(Version, ReleaseVersionData)>) -> (project: Self)
        ensures
            project.wf(),
            project@ == ProjectView::of_versions(entry_views(entries@)),
    {
        let mut project = Self::new();
        let ghost all = entry_views(entries@);
        let mut i: usize = 0;
        while i < entries.len()
            invariant
                i <= entries.len(),
                all == entry_views(entries@),
                project.wf(),
                project@ == ProjectView::of_versions(all.take(i as int)),
            decreases entries.len() - i,
        {
            proof {
                let next = all.take(i + 1);
                assert(next.drop_last() =~= all.take(i as int));
            }
            project.add_release(entries[i].0.clone(), entries[i].1.clone());
            i = i + 1;
        }
        assert(all.take(i as int) =~= all);
        project
    }

    /// All versions with their data: range after range in ascending order,
    /// and the versions of a range in ascending order.
    pub fn all_versions(&self) -> (entries: Vec<&(Version, ReleaseVersionData)>)
        ensures
            listed_views(entries@) == self@.all_versions(),
    {
        let mut entries: Vec<&(Version, ReleaseVersionData)> = Vec::new();
        let ghost all = range_views(self.ranges@);
        let mut i: usize = 0;
        while i < self.ranges.len()
            invariant
                i <= self.ranges.len(),
                all == range_views(self.ranges@),
                listed_views(entries@) == all_entries(all.take(i as int)),
            decreases self.ranges.len() - i,
        {
            let versions = self.ranges[i].1.versions();
            let ghost head = listed_views(entries@);
            let mut k: usize = 0;
            while k < versions.len()
                invariant
                    k <= versions.len(),
                    listed_views(entries@) == head + entry_views(versions@).take(k as int),
                decreases versions.len() - k,
            {
                let ghost before = entries@;
                entries.push(&versions[k]);
                proof {
                    assert(listed_views(entries@) =~= listed_views(before).push(
                        (versions[k as int].0@, versions[k as int].1@),
                    ));
                }
                k = k + 1;
            }
            proof {
                let next = all.take(i + 1);
                assert(next.drop_last() =~= all.take(i as int));
            }
            i = i + 1;
        }
        assert(all.take(i as int) =~= all);
        entries
    }

    /// The latest range: the greatest one whose bucket has an ordinary
    /// release.
    pub fn latest(&self) -> (range: Option<VersionRange>)
        ensures
            range == self@.latest,
    {
        self.latest
    }

    /// The ranges with their buckets, in ascending order.
    pub fn ranges(&self) -> (ranges: &Vec<(VersionRange, ReleaseRangeData)>)
        ensures
            range_views(ranges@) == self@.ranges,
    {
        &self.ranges
    }

    /// The bucket of the latest range, if there is a latest range.
    pub fn latest_bucket(&self) -> (bucket: Option<&ReleaseRangeData>)
        requires
            self.wf(),
        ensures
            bucket is Some <==> self@.latest is Some,
            bucket matches Some(b) ==> b@ == self@.ranges[last_stable(self@.ranges)].1 && b.wf(),
    {
        let ghost views = range_views(self.ranges@);
        let mut j: usize = self.ranges.len();
        while j > 0
            invariant
                j <= self.ranges.len(),
                self.wf(),
                views == range_views(self.ranges@),
                forall|k: int| j <= k < views.len() ==> (#[trigger] views[k]).1.is_prerelease,
            decreases j,
        {
            if !self.ranges[j - 1].1.is_prerelease() {
                proof {
                    lemma_last_stable_is(views, j - 1);
                }
                return Some(&self.ranges[j - 1].1);
            }
            j = j - 1;
        }
        proof {
            lemma_last_stable_is(views, -1);
        }
        None
    }

    /// Appends the locations of all buckets to `found`, in order.
    pub fn collect_locations<'a>(&'a self, found: &mut Vec<&'a ReleaseLocation>)
        ensures
            found_views(final(found)@) == found_views(old(found)@) + self@.locations(),
    {
        let ghost all = range_views(self.ranges@);
        let mut i: usize = 0;
        while i < self.ranges.len()
            invariant
                i <= self.ranges.len(),
                all == range_views(self.ranges@),
                found_views(found@) == found_views(old(found)@) + range_locations(
                    all.take(i as int),
                ),
            decreases self.ranges.len() - i,
        {
            self.ranges[i].1.collect_locations(found);
            proof {
                let next = all.take(i + 1);
                assert(next.drop_last() =~= all.take(i as int));
            }
            i = i + 1;
        }
        assert(all.take(i as int) =~= all);
    }

    /// Takes over, for each location, the digests that a backfill fetched
    /// for its URL. The buckets and the latest range stay as they are.
    pub fn backfill(&mut self, outcomes: &KeyedOutcomes)
        requires
            old(self).wf(),
        ensures
            final(self).wf(),
            final(self)@ == old(self)@.backfilled(outcomes@),
    {
        let ghost before = range_views(self.ranges@);
        let mut i: usize = 0;
        while i < self.ranges.len()
            invariant
                i <= self.ranges.len(),
                self.ranges.len() == before.len(),
                self.latest == old(self).latest,
                before == range_views(old(self).ranges@),
                forall|k: int| 0 <= k < before.len() ==> bucket_fits(#[trigger] before[k]),
                forall|k: int|
                    0 <= k < before.len() ==> (#[trigger] self.ranges[k]).0 == before[k].0,
                forall|k: int|
                    0 <= k < i ==> (#[trigger] self.ranges[k]).1@ == before[k].1.backfilled(
                        outcomes@,
                    ) && self.ranges[k].1.wf(),
                forall|k: int|
                    i <= k < before.len() ==> (#[trigger] self.ranges[k]).1@ == before[k].1,
            decreases self.ranges.len() - i,
        {
            self.ranges[i].1.backfill(outcomes);
            i = i + 1;
        }
        proof {
            let now = range_views(self.ranges@);
            assert(now =~= backfilled_ranges(before, outcomes@));
            lemma_last_stable(before);
            lemma_last_stable_is(now, last_stable(before));
        }
    }

    /// The ranges with their buckets in descending order, as they are
    /// written out.
    pub fn ranges_descending(&self) -> (ranges: Vec<&(VersionRange, ReleaseRangeData)>)
        ensures
            listed_range_views(ranges@) == self@.ranges.reverse(),
    {
        let mut ranges: Vec<&(VersionRange, ReleaseRangeData)> = Vec::new();
        let n = self.ranges.len();
        let mut i: usize = 0;
        while i < n
            invariant
                i <= n,
                n == self.ranges.len(),
                ranges.len() == i,
                forall|k: int| 0 <= k < i ==> *(#[trigger] ranges[k]) == self.ranges[n - 1 - k],
            decreases n - i,
        {
            ranges.push(&self.ranges[n - 1 - i]);
            i = i + 1;
        }
        ranges
    }
}

/// The views of the entries that `listed` refers to, in order.
pub open spec fn listed_range_views(listed: Seq<&(VersionRange, ReleaseRangeData)>) -> Seq<
    RangeEntryView,
> {
    Seq::new(listed.len(), |i: int| (listed[i].0, listed[i].1@))
}

/// Written out in descending order, each range of a project comes strictly
/// after those behind it, in whatever order the versions were added.
pub proof fn lemma_ranges_descending(project: ProjectView, i: int, j: int)
    requires
        project.wf(),
        0 <= i < j < project.ranges.len(),
    ensures
        project.ranges.reverse()[j].0.before(project.ranges.reverse()[i].0),
{
}

} // verus!
