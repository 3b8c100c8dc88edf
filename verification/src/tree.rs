//! The release metadata document: the projects by name.

use crate::fetch::OutcomeView;
use crate::location::{found_views, LocationView, ReleaseLocation};
use crate::outcomes::KeyedOutcomes;
use crate::location::ReleaseVersionData;
use crate::project::{MuktiProject, ProjectView};
use crate::version::Version;
use vstd::prelude::*;

verus! {

/// A name and its project, as the specifications see it.
pub type ProjectEntryView = (Seq<char>, ProjectView);

/// No two of `projects` have the same name.
pub open spec fn names_distinct(projects: Seq<ProjectEntryView>) -> bool {
    forall|i: int, j: int|
        #![trigger projects[i], projects[j]]
        0 <= i < j < projects.len() ==> projects[i].0 != projects[j].0
}

/// The position of the project called `name`, or the length of `projects`
/// where there is none.
pub open spec fn name_position(projects: Seq<ProjectEntryView>, name: Seq<char>) -> int
    decreases projects.len(),
{
    if projects.len() == 0 || projects[0].0 == name {
        0
    } else {
        1 + name_position(projects.drop_first(), name)
    }
}

/// The locations of all of `projects`, in order.
pub open spec fn project_locations(projects: Seq<ProjectEntryView>) -> Seq<LocationView>
    decreases projects.len(),
{
    if projects.len() == 0 {
        Seq::empty()
    } else {
        project_locations(projects.drop_last()) + projects.last().1.locations()
    }
}

/// Every project of `projects` after a backfill.
pub open spec fn backfilled_projects(
    projects: Seq<ProjectEntryView>,
    outcomes: Map<Seq<char>, OutcomeView>,
) -> Seq<ProjectEntryView> {
    Seq::new(projects.len(), |i: int| (projects[i].0, projects[i].1.backfilled(outcomes)))
}

/// What a [`MuktiReleasesJson`] holds.
pub struct TreeView {
    pub projects: Seq<ProjectEntryView>,
}

impl TreeView {
    /// The document with `project` under `name`: it takes the place of a
    /// project of that name, or goes to the end.
    pub open spec fn with_project(self, name: Seq<char>, project: ProjectView) -> TreeView {
        let at = name_position(self.projects, name);
        if at < self.projects.len() {
            TreeView { projects: self.projects.update(at, (name, project)) }
        } else {
            TreeView { projects: self.projects.push((name, project)) }
        }
    }

    /// The document after `projects` were put in one after the other.
    pub open spec fn with_projects(self, projects: Seq<ProjectEntryView>) -> TreeView
        decreases projects.len(),
    {
        if projects.len() == 0 {
            self
        } else {
            self.with_projects(projects.drop_last()).with_project(
                projects.last().0,
                projects.last().1,
            )
        }
    }

    /// The document that comes of putting `projects` one after the other
    /// into a document without projects.
    pub open spec fn of_projects(projects: Seq<ProjectEntryView>) -> TreeView {
        (TreeView { projects: Seq::empty() }).with_projects(projects)
    }

    /// The locations of all projects, in order.
    pub open spec fn locations(self) -> Seq<LocationView> {
        project_locations(self.projects)
    }

    /// The locations that lack a digest, in order.
    pub open spec fn locations_without_checksums(self) -> Seq<LocationView> {
        self.locations().filter(|l: LocationView| l.needs_checksums())
    }

    /// The document after a backfill: every location whose URL was fetched
    /// has the fresh complete checksum map, and nothing else has changed.
    pub open spec fn backfilled(self, outcomes: Map<Seq<char>, OutcomeView>) -> TreeView {
        TreeView { projects: backfilled_projects(self.projects, outcomes) }
    }

    /// The names are distinct and every project is well formed.
    pub open spec fn wf(self) -> bool {
        &&& names_distinct(self.projects)
        &&& forall|i: int| 0 <= i < self.projects.len() ==> (#[trigger] self.projects[i]).1.wf()
    }
}

/// Where the first `at` projects have other names and the next one has
/// `name`, or there is no next one, `at` is the position of `name`.
pub proof fn lemma_name_position_is(projects: Seq<ProjectEntryView>, name: Seq<char>, at: int)
    requires
        0 <= at <= projects.len(),
        forall|k: int| 0 <= k < at ==> (#[trigger] projects[k]).0 != name,
        at < projects.len() ==> projects[at].0 == name,
    ensures
        name_position(projects, name) == at,
    decreases projects.len(),
{
    if at > 0 {
        let rest = projects.drop_first();
        lemma_name_position_is(rest, name, at - 1);
    }
}

/// Putting the first `upto` projects of a document, in order, into a
/// document without projects gives these projects again.
proof fn lemma_rebuild_projects(tree: TreeView, upto: int)
    requires
        names_distinct(tree.projects),
        0 <= upto <= tree.projects.len(),
    ensures
        TreeView::of_projects(tree.projects.take(upto)).projects == tree.projects.take(upto),
    decreases upto,
{
    let projects = tree.projects;
    if upto > 0 {
        lemma_rebuild_projects(tree, upto - 1);
        let front = projects.take(upto - 1);
        assert(projects.take(upto).drop_last() =~= front);
        lemma_name_position_is(front, projects[upto - 1].0, front.len() as int);
    }
}

/// A document is what comes of putting its projects, in their order, into a
/// document without projects: taking a document apart and building it again
/// gives the same document.
pub proof fn lemma_rebuild_tree(tree: TreeView)
    requires
        tree.wf(),
    ensures
        TreeView::of_projects(tree.projects) == tree,
{
    lemma_rebuild_projects(tree, tree.projects.len() as int);
    assert(tree.projects.take(tree.projects.len() as int) =~= tree.projects);
}

/// The release metadata of one or more projects.
#[derive(Debug)]
pub struct MuktiReleasesJson {
    /// The projects that are part of this releases.json.
    projects: Vec<(String, MuktiProject)>,
}

/// The views of `projects`, in order.
pub open spec fn project_views(projects: Seq<(String, MuktiProject)>) -> Seq<ProjectEntryView> {
    Seq::new(projects.len(), |i: int| (projects[i].0@, projects[i].1@))
}

impl View for MuktiReleasesJson {
    type V = TreeView;

    closed spec fn view(&self) -> TreeView {
        TreeView { projects: project_views(self.projects@) }
    }
}

impl Clone for MuktiReleasesJson {
    fn clone(&self) -> (copy: Self)
        ensures
            copy@ == self@,
    {
        let mut projects: Vec<(String, MuktiProject)> = Vec::new();
        let mut i: usize = 0;
        while i < self.projects.len()
            invariant
                i <= self.projects.len(),
                projects.len() == i,
                forall|k: int|
                    0 <= k < i ==> (#[trigger] projects[k]).0@ == self.projects[k].0@
                        && projects[k].1@ == self.projects[k].1@,
            decreases self.projects.len() - i,
        {
            projects.push((self.projects[i].0.clone(), self.projects[i].1.clone()));
            i = i + 1;
        }
        assert(project_views(projects@) =~= project_views(self.projects@));
        MuktiReleasesJson { projects }
    }
}

impl Default for MuktiReleasesJson {
    fn default() -> (tree: Self)
        ensures
            tree.wf(),
            tree@.projects == Seq::<ProjectEntryView>::empty(),
    {
        Self::new()
    }
}

impl MuktiReleasesJson {
    /// The invariant of a document: see [`TreeView::wf`].
    pub open spec fn wf(&self) -> bool {
        self@.wf()
    }

    /// A document without projects.
    pub fn new() -> (tree: Self)
        ensures
            tree.wf(),
            tree@.projects == Seq::<ProjectEntryView>::empty(),
    {
        let tree = MuktiReleasesJson { projects: Vec::new() };
        tree
    }

    /// The document to start from where the file is missing: an empty one
    /// where that is acceptable, none where it is not.
    pub fn when_missing(allow_missing: bool) -> (tree: Option<Self>)
        ensures
            tree is Some <==> allow_missing,
            tree matches Some(t) ==> t.wf() && t@.projects == Seq::<ProjectEntryView>::empty(),
    {
        if allow_missing {
            Some(Self::new())
        } else {
            None
        }
    }

    /// Puts `project` under `name`, in place of a project of that name if
    /// there is one.
    pub fn insert_project(&mut self, name: String, project: MuktiProject)
        requires
            old(self).wf(),
            project.wf(),
        ensures
            final(self).wf(),
            final(self)@ == old(self)@.with_project(name@, project@),
    {
        let ghost before = project_views(self.projects@);
        let ghost entry = (name@, project@);
        let mut i: usize = 0;
        while i < self.projects.len()
            invariant
                i <= self.projects.len(),
                self.projects == old(self).projects,
                before == project_views(self.projects@),
                entry == (name@, project@),
                project.wf(),
                before.len() == self.projects.len(),
                names_distinct(before),
                forall|k: int| 0 <= k < before.len() ==> (#[trigger] before[k]).1.wf(),
                forall|k: int| 0 <= k < i ==> (#[trigger] before[k]).0 != name@,
            decreases self.projects.len() - i,
        {
            if self.projects[i].0 == name {
                proof {
                    lemma_name_position_is(before, name@, i as int);
                }
                self.projects.set(i, (name, project));
                proof {
                    let now = project_views(self.projects@);
                    assert(now =~= before.update(i as int, entry));
                }
                return ;
            }
            i = i + 1;
        }
        proof {
            lemma_name_position_is(before, name@, i as int);
        }
        self.projects.push((name, project));
        proof {
            let now = project_views(self.projects@);
            assert(now =~= before.push(entry));
        }
    }

    /// The document that comes of putting `projects` one after the other
    /// into a document without projects.
    pub fn from_projects(projects: Vec<(String, MuktiProject)>) -> (tree: Self)
        requires
            forall|i: int| 0 <= i < projects.len() ==> (#[trigger] projects[i]).1.wf(),
        ensures
            tree.wf(),
            tree@ == TreeView::of_projects(project_views(projects@)),
    {
        let mut tree = Self::new();
        let ghost all = project_views(projects@);
        let mut i: usize = 0;
        while i < projects.len()
            invariant
                i <= projects.len(),
                all == project_views(projects@),
                forall|k: int| 0 <= k < projects.len() ==> (#[trigger] projects[k]).1.wf(),
                tree.wf(),
                tree@ == TreeView::of_projects(all.take(i as int)),
            decreases projects.len() - i,
        {
            proof {
                let next = all.take(i + 1);
                assert(next.drop_last() =~= all.take(i as int));
            }
            tree.insert_project(projects[i].0.clone(), projects[i].1.clone());
            i = i + 1;
        }
        assert(all.take(i as int) =~= all);
        tree
    }

    /// The projects with their names.
    pub fn projects(&self) -> (projects: &Vec<(String, MuktiProject)>)
        ensures
            project_views(projects@) == self@.projects,
    {
        &self.projects
    }

    /// The number of projects.
    pub fn project_count(&self) -> (n: usize)
        ensures
            n == self@.projects.len(),
    {
        self.projects.len()
    }

    /// Adds a release to the only project of the document.
    pub fn add_release_to_only_project(
        &mut self,
        version: Version,
        data: ReleaseVersionData,
    )
        requires
            old(self).wf(),
            old(self)@.projects.len() == 1,
        ensures
            final(self).wf(),
            final(self)@.projects == seq![
                (
                    old(self)@.projects[0].0,
                    old(self)@.projects[0].1.with_release(version@, data@),
                ),
            ],
    {
        assert(self@.projects[0].1.wf());
        self.projects[0].1.add_release(version, data);
        proof {
            let now = project_views(self.projects@);
            assert(now =~= seq![
                (
                    old(self)@.projects[0].0,
                    old(self)@.projects[0].1.with_release(version@, data@),
                ),
            ]);
        }
    }

    /// All locations of the document, in the order of projects, ranges and
    /// versions.
    pub fn all_locations(&self) -> (found: Vec<&ReleaseLocation>)
        ensures
            found_views(found@) == self@.locations(),
    {
        let mut found: Vec<&ReleaseLocation> = Vec::new();
        let ghost all = project_views(self.projects@);
        let mut i: usize = 0;
        while i < self.projects.len()
            invariant
                i <= self.projects.len(),
                all == project_views(self.projects@),
                found_views(found@) == project_locations(all.take(i as int)),
            decreases self.projects.len() - i,
        {
            self.projects[i].1.collect_locations(&mut found);
            proof {
                let next = all.take(i + 1);
                assert(next.drop_last() =~= all.take(i as int));
            }
            i = i + 1;
        }
        assert(all.take(i as int) =~= all);
        found
    }

    /// The locations that lack one of the two digests, in the same order.
    pub fn all_locations_without_checksums(&self) -> (found: Vec<&ReleaseLocation>)
        ensures
            found_views(found@) == self@.locations_without_checksums(),
    {
        let all = self.all_locations();
        let ghost views = found_views(all@);
        let ghost needs = |l: LocationView| l.needs_checksums();
        let mut found: Vec<&ReleaseLocation> = Vec::new();
        let mut i: usize = 0;
        while i < all.len()
            invariant
                i <= all.len(),
                views == found_views(all@),
                needs == |l: LocationView| l.needs_checksums(),
                found_views(found@) == views.take(i as int).filter(needs),
            decreases all.len() - i,
        {
            proof {
                let next = views.take(i + 1);
                assert(next.drop_last() =~= views.take(i as int));
                reveal(Seq::filter);
            }
            if all[i].needs_checksums() {
                found.push(all[i]);
            }
            i = i + 1;
        }
        assert(views.take(i as int) =~= views);
        found
    }

    /// Takes over, for each location, the digests that a backfill fetched
    /// for its URL: a location whose URL was fetched with success has the
    /// fresh complete map, every other location is left as it was.
    pub fn backfill(&mut self, outcomes: &KeyedOutcomes)
        requires
            old(self).wf(),
        ensures
            final(self).wf(),
            final(self)@ == old(self)@.backfilled(outcomes@),
    {
        let ghost before = project_views(self.projects@);
        let mut i: usize = 0;
        while i < self.projects.len()
            invariant
                i <= self.projects.len(),
                self.projects.len() == before.len(),
                before == project_views(old(self).projects@),
                names_distinct(before),
                forall|k: int| 0 <= k < before.len() ==> (#[trigger] before[k]).1.wf(),
                forall|k: int|
                    0 <= k < before.len() ==> (#[trigger] self.projects[k]).0@ == before[k].0,
                forall|k: int|
                    0 <= k < i ==> (#[trigger] self.projects[k]).1@ == before[k].1.backfilled(
                        outcomes@,
                    ) && self.projects[k].1.wf(),
                forall|k: int|
                    i <= k < before.len() ==> (#[trigger] self.projects[k]).1@ == before[k].1,
            decreases self.projects.len() - i,
        {
            self.projects[i].1.backfill(outcomes);
            i = i + 1;
        }
        proof {
            let now = project_views(self.projects@);
            assert(now =~= backfilled_projects(before, outcomes@));
        }
    }
}

} // verus!
