//! Which newer versions there are.
use vstd::prelude::*;

use crate::text::{concat2, concat4, same_text};

verus! {

/// Where the list of versions is.
pub const UPDATE_URL: &'static str = "https://raw.githubusercontent.com/jmgao/pore/master/versions.yaml";

/// A version, and what changed in it.
pub struct Version {
    pub number: String,
    pub date: String,
    pub changes: Vec<String>,
}

/// A version, as a value.
#[verifier::ext_equal]
pub struct VersionView {
    pub number: Seq<char>,
    pub date: Seq<char>,
    pub changes: Seq<Seq<char>>,
}

impl View for Version {
    type V = VersionView;

    open spec fn view(&self) -> VersionView {
        VersionView {
            number: self.number@,
            date: self.date@,
            changes: self.changes.deep_view(),
        }
    }
}

impl DeepView for Version {
    type V = VersionView;

    open spec fn deep_view(&self) -> VersionView {
        self@
    }
}

impl Clone for Version {
    fn clone(&self) -> (r: Version)
        ensures
            r@ == self@,
    {
        Version {
            number: self.number.clone(),
            date: self.date.clone(),
            changes: crate::text::copy_list(&self.changes),
        }
    }
}

/// The first version number is lower than the second.
pub uninterp spec fn version_precedes(a: Seq<char>, b: Seq<char>) -> bool;

/// Whether the first version number is lower than the second.
///
/// Calls `version_compare::Version::from` on both and compares what comes out, where a text that is
/// no version number comes first. The result is a function of the two texts and is named
/// `version_precedes` here.
#[verifier::external_body]
fn is_lower(a: &str, b: &str) -> (r: bool)
    ensures
        r == version_precedes(a@, b@),
{
    version_compare::Version::from(a) < version_compare::Version::from(b)
}

/// A version is reported where it has been released and is newer.
pub open spec fn is_reported(number: Seq<char>, newer: bool) -> bool {
    number != "unreleased"@ && newer
}

/// The versions that are newer than the current one, in order.
pub open spec fn new_versions(versions: Seq<VersionView>, current: Seq<char>) -> Seq<VersionView>
    decreases versions.len(),
{
    if versions.len() == 0 {
        Seq::empty()
    } else {
        let front = new_versions(versions.drop_last(), current);
        let last = versions.last();
        if is_reported(last.number, version_precedes(current, last.number)) {
            front.push(last)
        } else {
            front
        }
    }
}

/// The lines that tell of a version.
pub open spec fn version_lines(version: VersionView) -> Seq<Seq<char>> {
    seq!["  "@ + version.number + " ("@ + (version.date + ")"@)] + Seq::new(
        version.changes.len(),
        |i: int| "    "@ + version.changes[i],
    )
}

/// The lines that tell of versions.
pub open spec fn versions_lines(versions: Seq<VersionView>) -> Seq<Seq<char>>
    decreases versions.len(),
{
    if versions.len() == 0 {
        Seq::empty()
    } else {
        versions_lines(versions.drop_last()) + version_lines(versions.last())
    }
}

/// What is said of newer versions; nothing where there are none.
pub open spec fn update_report(versions: Seq<VersionView>) -> Seq<Seq<char>> {
    if versions.len() == 0 {
        Seq::empty()
    } else {
        seq![
            "pore v"@ + versions[0].number + " ("@ + (versions[0].date + ") is available!"@),
            ""@,
        ] + versions_lines(versions)
    }
}

/// What looks for updates.
pub struct UpdateChecker {}

impl UpdateChecker {
    /// Whether a version is reported, from whether it is newer than the current one.
    pub fn reports(number: &str, newer: bool) -> (r: bool)
        ensures
            r == is_reported(number@, newer),
    {
        !same_text(number, "unreleased") && newer
    }

    /// The versions that are newer than the current one, in order.
    pub fn filter_new_versions(versions: &Vec<Version>, current: &str) -> (r: Vec<Version>)
        ensures
            r.deep_view() == new_versions(versions.deep_view(), current@),
    {
        let ghost all = versions.deep_view();
        let mut r: Vec<Version> = Vec::new();
        let mut i: usize = 0;
        assert(r.deep_view() =~= Seq::empty());
        while i < versions.len()
            invariant
                i <= versions.len(),
                all == versions.deep_view(),
                r.deep_view() == new_versions(all.take(i as int), current@),
            decreases versions.len() - i,
        {
            assert(all[i as int] == versions@[i as int]@);
            assert(all.take(i + 1).drop_last() =~= all.take(i as int));
            let number: &String = &versions[i].number;
            if UpdateChecker::reports(number.as_str(), is_lower(current, number.as_str())) {
                let ghost before = r.deep_view();
                let version: Version = versions[i].clone();
                let ghost added = version@;
                r.push(version);
                assert(r.deep_view() =~= before.push(added));
            }
            i += 1;
        }
        assert(all.take(all.len() as int) =~= all);
        r
    }

    /// What is said of newer versions, line by line.
    pub fn report(versions: &Vec<Version>) -> (r: Vec<String>)
        ensures
            r.deep_view() == update_report(versions.deep_view()),
    {
        let ghost all = versions.deep_view();
        let mut lines: Vec<String> = Vec::new();
        if versions.len() == 0 {
            assert(lines.deep_view() =~= Seq::empty());
            return lines;
        }
        assert(all[0] == versions@[0]@);
        lines.push(
            concat4(
                "pore v",
                versions[0].number.as_str(),
                " (",
                concat2(versions[0].date.as_str(), ") is available!").as_str(),
            ),
        );
        lines.push("".to_owned());
        let ghost head = lines.deep_view();
        assert(head =~= seq![
            "pore v"@ + all[0].number + " ("@ + (all[0].date + ") is available!"@),
            ""@,
        ]);
        let mut i: usize = 0;
        assert(head + versions_lines(all.take(0)) =~= head);
        while i < versions.len()
            invariant
                i <= versions.len(),
                all == versions.deep_view(),
                lines.deep_view() == head + versions_lines(all.take(i as int)),
            decreases versions.len() - i,
        {
            assert(all[i as int] == versions@[i as int]@);
            assert(all.take(i + 1).drop_last() =~= all.take(i as int));
            UpdateChecker::report_version(&versions[i], &mut lines);
            assert(lines.deep_view() =~= head + versions_lines(all.take(i + 1)));
            i += 1;
        }
        assert(all.take(all.len() as int) =~= all);
        lines
    }

    /// Adds the lines that tell of a version.
    fn report_version(version: &Version, lines: &mut Vec<String>)
        ensures
            final(lines).deep_view() == old(lines).deep_view() + version_lines(version@),
    {
        let ghost before = lines.deep_view();
        let ghost expected = version_lines(version@);
        let tail: String = concat2(version.date.as_str(), ")");
        crate::depot::add_argument(
            lines,
            concat4("  ", version.number.as_str(), " (", tail.as_str()),
        );
        let mut i: usize = 0;
        assert(lines.deep_view() =~= before + expected.take(1));
        while i < version.changes.len()
            invariant
                i <= version.changes.len(),
                expected == version_lines(version@),
                lines.deep_view() == before + expected.take(i + 1),
            decreases version.changes.len() - i,
        {
            assert(version@.changes[i as int] == version.changes@[i as int]@);
            crate::depot::add_argument(lines, concat2("    ", version.changes[i].as_str()));
            assert(lines.deep_view() =~= before + expected.take(i + 2));
            i += 1;
        }
        assert(expected.take(expected.len() as int) =~= expected);
    }

    /// What is said of the versions that are newer than the current one.
    pub fn finish(versions: &Vec<Version>, current: &str) -> (r: Vec<String>)
        ensures
            r.deep_view() == update_report(new_versions(versions.deep_view(), current@)),
    {
        UpdateChecker::report(&UpdateChecker::filter_new_versions(versions, current))
    }
}

/// No version that is not released yet is ever reported.
pub proof fn law_unreleased_not_reported(versions: Seq<VersionView>, current: Seq<char>, i: int)
    requires
        0 <= i < new_versions(versions, current).len(),
    ensures
        new_versions(versions, current)[i].number != "unreleased"@,
    decreases versions.len(),
{
    let front = new_versions(versions.drop_last(), current);
    if i < front.len() {
        law_unreleased_not_reported(versions.drop_last(), current, i);
    }
}

/// Each version is reported on its own and in order: exactly where it is released and newer.
pub proof fn law_versions_reported_one_by_one(
    versions: Seq<VersionView>,
    version: VersionView,
    current: Seq<char>,
)
    ensures
        version.number != "unreleased"@ && version_precedes(current, version.number)
            ==> new_versions(versions.push(version), current) == new_versions(
            versions,
            current,
        ).push(version),
        version.number == "unreleased"@ || !version_precedes(current, version.number)
            ==> new_versions(versions.push(version), current) == new_versions(versions, current),
        new_versions(Seq::empty(), current).len() == 0,
{
    assert(versions.push(version).drop_last() =~= versions);
}

/// What is said of newer versions names the first of them, and then tells of each in order: its
/// number and date, and all that has changed. Without newer versions nothing is said.
pub proof fn law_every_new_version_is_told(
    versions: Seq<VersionView>,
    version: VersionView,
    i: int,
)
    ensures
        update_report(Seq::empty()).len() == 0,
        ({
            let report = update_report(versions.push(version));
            let lines = version_lines(version);
            let first = versions.push(version)[0];
            &&& report[0] == "pore v"@ + first.number + " ("@ + (first.date + ") is available!"@)
            &&& lines.is_suffix_of(report)
            &&& lines.len() == 1 + version.changes.len()
            &&& lines[0] == "  "@ + version.number + " ("@ + (version.date + ")"@)
            &&& 0 <= i < version.changes.len() ==> lines[1 + i] == "    "@ + version.changes[i]
            &&& versions.len() > 0 ==> report == update_report(versions) + lines
            &&& versions.len() == 0 ==> report.len() == 2 + lines.len() && report[1] == ""@
        }),
{
    let all = versions.push(version);
    assert(all.drop_last() =~= versions);
    let report = update_report(all);
    let lines = version_lines(version);
    assert(report.subrange(report.len() - lines.len(), report.len() as int) =~= lines);
    if versions.len() > 0 {
        assert(all[0] == versions[0]);
        assert(report =~= update_report(versions) + lines);
    } else {
        reveal_with_fuel(versions_lines, 2);
    }
}

/// Something is said exactly where there is a version that is released and newer.
pub proof fn law_update_is_told(versions: &Vec<Version>, current: &str, r: Vec<String>)
    requires
        call_ensures(UpdateChecker::finish, (versions, current), r),
    ensures
        r@.len() > 0 <==> exists|i: int|
            0 <= i < versions@.len() && (#[trigger] versions@[i]).number@ != "unreleased"@
                && version_precedes(current@, versions@[i].number@),
{
    let all = versions.deep_view();
    assert(r.deep_view().len() == r@.len());
    lemma_some_new(all, current@);
    if exists|i: int|
        0 <= i < all.len() && is_reported(
            (#[trigger] all[i]).number,
            version_precedes(current@, all[i].number),
        ) {
        let i = choose|i: int|
            0 <= i < all.len() && is_reported(
                (#[trigger] all[i]).number,
                version_precedes(current@, all[i].number),
            );
        assert(all[i] == versions@[i]@);
    }
    if exists|i: int|
        0 <= i < versions@.len() && (#[trigger] versions@[i]).number@ != "unreleased"@
            && version_precedes(current@, versions@[i].number@) {
        let i = choose|i: int|
            0 <= i < versions@.len() && (#[trigger] versions@[i]).number@ != "unreleased"@
                && version_precedes(current@, versions@[i].number@);
        assert(all[i] == versions@[i]@);
    }
}

proof fn lemma_some_new(versions: Seq<VersionView>, current: Seq<char>)
    ensures
        new_versions(versions, current).len() > 0 <==> exists|i: int|
            0 <= i < versions.len() && is_reported(
                (#[trigger] versions[i]).number,
                version_precedes(current, versions[i].number),
            ),
    decreases versions.len(),
{
    if versions.len() > 0 {
        let front = versions.drop_last();
        lemma_some_new(front, current);
        assert(versions[versions.len() - 1] == versions.last());
        if exists|i: int|
            0 <= i < front.len() && is_reported(
                (#[trigger] front[i]).number,
                version_precedes(current, front[i].number),
            ) {
            let i = choose|i: int|
                0 <= i < front.len() && is_reported(
                    (#[trigger] front[i]).number,
                    version_precedes(current, front[i].number),
                );
            assert(versions[i] == front[i]);
        }
        if exists|i: int|
            0 <= i < versions.len() && is_reported(
                (#[trigger] versions[i]).number,
                version_precedes(current, versions[i].number),
            ) {
            let i = choose|i: int|
                0 <= i < versions.len() && is_reported(
                    (#[trigger] versions[i]).number,
                    version_precedes(current, versions[i].number),
                );
            if i < front.len() {
                assert(front[i] == versions[i]);
            }
        }
    }
}

} // verus!
