//! The redirect rules of a document: one line for each release page and
//! archive, under the latest version, under each range and under each
//! version.

use crate::bucket::{entry_views, keys, latest_position, EntryView, RangeDataView, ReleaseRangeData};
use crate::command::{Alias, AliasView};
use crate::location::{LocationView, ReleaseLocation, ReleaseVersionData, VersionDataView};
use crate::project::{last_stable, range_views, MuktiProject, ProjectView, RangeEntryView};
use crate::range::VersionRange;
use crate::reconcile::ProjectCountError;
use crate::text::chars_of;
use crate::tree::MuktiReleasesJson;
use crate::version::Version;
use vstd::prelude::*;

verus! {

/// `text` without the slashes at its end.
pub open spec fn without_trailing_slashes(text: Seq<char>) -> Seq<char>
    decreases text.len(),
{
    if text.len() > 0 && text.last() == '/' {
        without_trailing_slashes(text.drop_last())
    } else {
        text
    }
}

/// `text` without the slashes at its end.
pub fn trim_trailing_slashes(text: &str) -> (trimmed: &str)
    ensures
        trimmed@ == without_trailing_slashes(text@),
{
    let chars = chars_of(text);
    let mut end: usize = chars.len();
    assert(text@.take(end as int) =~= text@);
    while end > 0 && chars[end - 1] == '/'
        invariant
            end <= chars.len(),
            chars@ == text@,
            without_trailing_slashes(text@) == without_trailing_slashes(text@.take(end as int)),
        decreases end,
    {
        assert(text@.take(end as int).drop_last() =~= text@.take(end - 1));
        end = end - 1;
    }
    text.substring_char(0, end)
}

/// The rule that sends `<prefix>/<label>/<name>` to `url`.
pub open spec fn rule(
    prefix: Seq<char>,
    label: Seq<char>,
    name: Seq<char>,
    url: Seq<char>,
) -> Seq<char> {
    prefix + seq!['/'] + label + seq!['/'] + name + seq![' '] + url + " 302\n"@
}

/// The rules for the aliases of `aliases` that name the target and format of
/// `location`, in order.
pub open spec fn alias_rules(
    prefix: Seq<char>,
    label: Seq<char>,
    aliases: Seq<AliasView>,
    location: LocationView,
) -> Seq<char>
    decreases aliases.len(),
{
    if aliases.len() == 0 {
        Seq::empty()
    } else {
        alias_rules(prefix, label, aliases.drop_last(), location) + if aliases.last().target
            == location.target && aliases.last().format == location.format {
            rule(prefix, label, aliases.last().alias, location.url)
        } else {
            Seq::empty()
        }
    }
}

/// The rules for one location: `<target>.<format>`, then its aliases.
pub open spec fn location_rules(
    prefix: Seq<char>,
    label: Seq<char>,
    aliases: Seq<AliasView>,
    location: LocationView,
) -> Seq<char> {
    rule(prefix, label, location.target + seq!['.'] + location.format, location.url) + alias_rules(
        prefix,
        label,
        aliases,
        location,
    )
}

/// The rules for `locations`, in order.
pub open spec fn locations_rules(
    prefix: Seq<char>,
    label: Seq<char>,
    aliases: Seq<AliasView>,
    locations: Seq<LocationView>,
) -> Seq<char>
    decreases locations.len(),
{
    if locations.len() == 0 {
        Seq::empty()
    } else {
        locations_rules(prefix, label, aliases, locations.drop_last()) + location_rules(
            prefix,
            label,
            aliases,
            locations.last(),
        )
    }
}

/// The rules for one version under `label`: its release page, then its
/// locations.
pub open spec fn entries_text(
    prefix: Seq<char>,
    label: Seq<char>,
    data: VersionDataView,
    aliases: Seq<AliasView>,
) -> Seq<char> {
    rule(prefix, label, "release"@, data.release_url) + locations_rules(
        prefix,
        label,
        aliases,
        data.locations,
    )
}

/// The rules for each of `entries` under its own version, in order.
pub open spec fn versions_text(
    prefix: Seq<char>,
    aliases: Seq<AliasView>,
    entries: Seq<EntryView>,
) -> Seq<char>
    decreases entries.len(),
{
    if entries.len() == 0 {
        Seq::empty()
    } else {
        versions_text(prefix, aliases, entries.drop_last()) + entries_text(
            prefix,
            entries.last().0.text(),
            entries.last().1,
            aliases,
        )
    }
}

/// The rules for one bucket: its latest version under the range, unless the
/// bucket holds pre-releases only, then each version under itself.
pub open spec fn bucket_text(
    prefix: Seq<char>,
    aliases: Seq<AliasView>,
    entry: RangeEntryView,
) -> Seq<char> {
    (if entry.1.is_prerelease {
        Seq::empty()
    } else {
        entries_text(prefix, entry.0.text(), latest_data(entry.1), aliases)
    }) + versions_text(prefix, aliases, entry.1.versions)
}

/// The data of the latest version of `bucket`.
pub open spec fn latest_data(bucket: RangeDataView) -> VersionDataView {
    bucket.versions[latest_position(keys(bucket.versions))].1
}

/// The rules for each of `ranges`, in order.
pub open spec fn ranges_text(
    prefix: Seq<char>,
    aliases: Seq<AliasView>,
    ranges: Seq<RangeEntryView>,
) -> Seq<char>
    decreases ranges.len(),
{
    if ranges.len() == 0 {
        Seq::empty()
    } else {
        ranges_text(prefix, aliases, ranges.drop_last()) + bucket_text(
            prefix,
            aliases,
            ranges.last(),
        )
    }
}

/// The redirect rules of `project` under `prefix`: a heading, the latest
/// version of the latest range under `latest`, then every bucket.
pub open spec fn redirects_text(
    project: ProjectView,
    aliases: Seq<AliasView>,
    prefix: Seq<char>,
) -> Seq<char> {
    "# Generated by mukti\n\n"@ + (if project.latest is Some {
        entries_text(
            prefix,
            "latest"@,
            latest_data(project.ranges[last_stable(project.ranges)].1),
            aliases,
        )
    } else {
        Seq::empty()
    }) + ranges_text(prefix, aliases, project.ranges)
}

/// The views of `aliases`, in order.
pub open spec fn alias_views(aliases: Seq<Alias>) -> Seq<AliasView> {
    Seq::new(aliases.len(), |i: int| aliases[i]@)
}

/// Appends the rule that sends `<prefix>/<label>/<name>` to `url`.
fn write_rule(out: &mut String, prefix: &str, label: &str, name: &str, url: &str)
    ensures
        final(out)@ == old(out)@ + rule(prefix@, label@, name@, url@),
{
    proof {
        reveal_strlit("/");
        reveal_strlit(" ");
    }
    out.append(prefix);
    out.append("/");
    out.append(label);
    out.append("/");
    out.append(name);
    out.append(" ");
    out.append(url);
    out.append(" 302\n");
}

/// Appends the rules for one location under `label`.
fn write_location(
    out: &mut String,
    prefix: &str,
    label: &str,
    aliases: &[Alias],
    location: &ReleaseLocation,
)
    ensures
        final(out)@ == old(out)@ + location_rules(
            prefix@,
            label@,
            alias_views(aliases@),
            location@,
        ),
{
    proof {
        reveal_strlit(".");
    }
    let mut name = location.target.clone();
    name.append(".");
    name.append(location.format.as_str());
    write_rule(out, prefix, label, name.as_str(), location.url.as_str());
    let ghost head = out@;
    let ghost all = alias_views(aliases@);
    let mut i: usize = 0;
    while i < aliases.len()
        invariant
            i <= aliases.len(),
            all == alias_views(aliases@),
            out@ == head + alias_rules(prefix@, label@, all.take(i as int), location@),
        decreases aliases.len() - i,
    {
        let alias = &aliases[i];
        proof {
            let next = all.take(i + 1);
            assert(next.drop_last() =~= all.take(i as int));
        }
        if alias.target_format.target == location.target && alias.target_format.format
            == location.format {
            write_rule(out, prefix, label, alias.alias.as_str(), location.url.as_str());
        }
        i = i + 1;
    }
    assert(all.take(i as int) =~= all);
}

/// Appends the rules for one version under the label `version`: the release
/// page, then each location with the aliases that name its target and
/// format.
pub fn write_entries(
    version: &str,
    version_data: &ReleaseVersionData,
    aliases: &[Alias],
    netlify_prefix: &str,
    out: &mut String,
)
    ensures
        final(out)@ == old(out)@ + entries_text(
            netlify_prefix@,
            version@,
            version_data@,
            alias_views(aliases@),
        ),
{
    write_rule(out, netlify_prefix, version, "release", version_data.release_url.as_str());
    let ghost head = out@;
    let ghost all = version_data@.locations;
    let ghost names = alias_views(aliases@);
    let mut i: usize = 0;
    while i < version_data.locations.len()
        invariant
            i <= version_data.locations.len(),
            all == version_data@.locations,
            names == alias_views(aliases@),
            out@ == head + locations_rules(netlify_prefix@, version@, names, all.take(i as int)),
        decreases version_data.locations.len() - i,
    {
        proof {
            let next = all.take(i + 1);
            assert(next.drop_last() =~= all.take(i as int));
        }
        write_location(out, netlify_prefix, version, aliases, &version_data.locations[i]);
        i = i + 1;
    }
    assert(all.take(i as int) =~= all);
}

/// Appends the rules for one bucket.
fn write_bucket(
    out: &mut String,
    prefix: &str,
    aliases: &[Alias],
    range: &VersionRange,
    bucket: &ReleaseRangeData,
)
    requires
        bucket.wf(),
    ensures
        final(out)@ == old(out)@ + bucket_text(prefix@, alias_views(aliases@), (*range, bucket@)),
{
    let ghost names = alias_views(aliases@);
    if !bucket.is_prerelease() {
        let label = range.to_string();
        write_entries(label.as_str(), bucket.latest_data(), aliases, prefix, out);
    }
    let ghost head = out@;
    let entries = bucket.versions();
    let ghost all = bucket@.versions;
    let mut i: usize = 0;
    while i < entries.len()
        invariant
            i <= entries.len(),
            all == entry_views(entries@),
            names == alias_views(aliases@),
            out@ == head + versions_text(prefix@, names, all.take(i as int)),
        decreases entries.len() - i,
    {
        proof {
            let next = all.take(i + 1);
            assert(next.drop_last() =~= all.take(i as int));
        }
        let label = entries[i].0.to_string();
        write_entries(label.as_str(), &entries[i].1, aliases, prefix, out);
        i = i + 1;
    }
    assert(all.take(i as int) =~= all);
}

/// The redirect rules of a project under `prefix`.
pub fn project_redirects(project: &MuktiProject, aliases: &[Alias], prefix: &str) -> (out: String)
    requires
        project.wf(),
    ensures
        out@ == redirects_text(project@, alias_views(aliases@), prefix@),
{
    let ghost names = alias_views(aliases@);
    let mut out = "# Generated by mukti\n\n".to_owned();
    match project.latest_bucket() {
        Some(bucket) => {
            write_entries("latest", bucket.latest_data(), aliases, prefix, &mut out);
        },
        None => {},
    }
    let ghost head = out@;
    let ranges = project.ranges();
    let ghost all = project@.ranges;
    let mut i: usize = 0;
    while i < ranges.len()
        invariant
            i <= ranges.len(),
            project.wf(),
            all == range_views(ranges@),
            all == project@.ranges,
            names == alias_views(aliases@),
            out@ == head + ranges_text(prefix@, names, all.take(i as int)),
        decreases ranges.len() - i,
    {
        proof {
            let next = all.take(i + 1);
            assert(next.drop_last() =~= all.take(i as int));
            assert(next.last() == (ranges[i as int].0, ranges[i as int].1@));
        }
        write_bucket(&mut out, prefix, aliases, &ranges[i].0, &ranges[i].1);
        i = i + 1;
    }
    assert(all.take(i as int) =~= all);
    out
}

/// The redirect rules of the only project of the document, under
/// `netlify_prefix` without the slashes at its end. The document must hold
/// exactly one project.
pub fn generate_netlify_redirects(
    release_json: &MuktiReleasesJson,
    aliases: &[Alias],
    netlify_prefix: &str,
) -> (r: Result<String, ProjectCountError>)
    requires
        release_json.wf(),
    ensures
        match r {
            Ok(out) => release_json@.projects.len() == 1 && out@ == redirects_text(
                release_json@.projects[0].1,
                alias_views(aliases@),
                without_trailing_slashes(netlify_prefix@),
            ),
            Err(e) => release_json@.projects.len() != 1 && e == (ProjectCountError {
                found: release_json@.projects.len() as usize,
            }),
        },
{
    if release_json.project_count() != 1 {
        return Err(ProjectCountError { found: release_json.project_count() });
    }
    let projects = release_json.projects();
    assert(release_json@.projects[0].1.wf());
    Ok(project_redirects(&projects[0].1, aliases, trim_trailing_slashes(netlify_prefix)))
}

} // verus!
