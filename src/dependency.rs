use vstd::prelude::*;

use crate::version::{Version, VersionView};

verus! {

/// The versions seen for one (dependency, configuration) pair.
#[derive(Debug, Clone)]
pub struct Versions {
    /// Transitive readings, in the order first seen, without repeats.
    pub transitive: Vec<Version>,
    /// The pinned reading in force.
    pub pinned: Version,
}

/// One configuration of a dependency and the versions seen under it.
#[derive(Debug, Clone)]
pub struct GradleEntry {
    pub gradle_config_name: String,
    pub versions: Versions,
}

/// A dependency of one snapshot with all its configuration entries.
#[derive(Debug, Clone)]
pub struct Dependency {
    pub name: String,
    pub namespace: String,
    pub gradle_entries: Vec<GradleEntry>,
}

/// What one dependency line decodes to.
#[derive(Debug, Clone)]
pub struct ParsedDependency {
    pub name: String,
    pub namespace: String,
    pub transitive: Version,
    pub pinned: Version,
}

/// The result of decoding a line classified as a dependency line.
#[derive(Debug)]
pub enum DepParseResult {
    Dep(ParsedDependency),
    /// The `No dependencies` sentinel.
    NoDependencies,
}

/// What the parser did with one line.
#[derive(Debug, Clone, Copy, PartialEq, Eq, Structural)]
pub enum LineParseResult {
    Parsed,
    Skip,
    End,
}

/// A fatal failure while parsing or comparing.
#[derive(Debug, Clone, Copy, PartialEq, Eq, Structural)]
pub enum DepsError {
    /// A dependency line carries no colon.
    Decode,
    /// Two version strings could not be ordered.
    Comparison,
}

/// The effective version of one configuration.
#[derive(Debug, Clone)]
pub struct TempList {
    pub gradle_config_name: String,
    pub version: String,
}

/// One configuration's effective version before and after.
#[derive(Debug, Clone)]
pub struct GradleList {
    pub gradle_config_name: String,
    pub version_before: String,
    pub version_after: String,
}

/// A dependency with its full entry lists on both sides.
#[derive(Debug, Clone)]
pub struct ProcessedDependency {
    pub name: String,
    pub namespace: String,
    pub gradle_entries_before: Vec<GradleEntry>,
    pub gradle_entries_after: Vec<GradleEntry>,
}

/// The diff record of one dependency.
#[derive(Debug, Clone)]
pub struct ProcessedDependencyObject {
    pub dependency: ProcessedDependency,
    pub changed: bool,
    pub gradle_versions: Vec<GradleList>,
}

pub ghost struct EntryView {
    pub config: Seq<char>,
    pub transitive: Seq<VersionView>,
    pub pinned: VersionView,
}

pub ghost struct DependencyView {
    pub name: Seq<char>,
    pub namespace: Seq<char>,
    pub entries: Seq<EntryView>,
}

pub ghost struct ParsedView {
    pub name: Seq<char>,
    pub namespace: Seq<char>,
    pub transitive: VersionView,
    pub pinned: VersionView,
}

pub ghost enum DepParseView {
    Dep(ParsedView),
    NoDependencies,
}

pub ghost struct ConfigVersionView {
    pub config: Seq<char>,
    pub version: Seq<char>,
}

pub ghost struct ListView {
    pub config: Seq<char>,
    pub before: Seq<char>,
    pub after: Seq<char>,
}

pub ghost struct RecordView {
    pub name: Seq<char>,
    pub namespace: Seq<char>,
    pub entries_before: Seq<EntryView>,
    pub entries_after: Seq<EntryView>,
    pub lists: Seq<ListView>,
    pub changed: bool,
}

pub open spec fn versions_view(v: Seq<Version>) -> Seq<VersionView> {
    v.map_values(|x: Version| x@)
}

pub open spec fn entries_view(v: Seq<GradleEntry>) -> Seq<EntryView> {
    v.map_values(|e: GradleEntry| e@)
}

impl View for Versions {
    type V = (Seq<VersionView>, VersionView);

    open spec fn view(&self) -> (Seq<VersionView>, VersionView) {
        (versions_view(self.transitive@), self.pinned@)
    }
}

impl View for GradleEntry {
    type V = EntryView;

    open spec fn view(&self) -> EntryView {
        EntryView {
            config: self.gradle_config_name@,
            transitive: versions_view(self.versions.transitive@),
            pinned: self.versions.pinned@,
        }
    }
}

impl View for Dependency {
    type V = DependencyView;

    open spec fn view(&self) -> DependencyView {
        DependencyView {
            name: self.name@,
            namespace: self.namespace@,
            entries: entries_view(self.gradle_entries@),
        }
    }
}

impl View for ParsedDependency {
    type V = ParsedView;

    open spec fn view(&self) -> ParsedView {
        ParsedView {
            name: self.name@,
            namespace: self.namespace@,
            transitive: self.transitive@,
            pinned: self.pinned@,
        }
    }
}

impl View for DepParseResult {
    type V = DepParseView;

    open spec fn view(&self) -> DepParseView {
        match self {
            DepParseResult::Dep(d) => DepParseView::Dep(d@),
            DepParseResult::NoDependencies => DepParseView::NoDependencies,
        }
    }
}

impl View for TempList {
    type V = ConfigVersionView;

    open spec fn view(&self) -> ConfigVersionView {
        ConfigVersionView { config: self.gradle_config_name@, version: self.version@ }
    }
}

impl View for GradleList {
    type V = ListView;

    open spec fn view(&self) -> ListView {
        ListView {
            config: self.gradle_config_name@,
            before: self.version_before@,
            after: self.version_after@,
        }
    }
}

impl View for ProcessedDependencyObject {
    type V = RecordView;

    open spec fn view(&self) -> RecordView {
        RecordView {
            name: self.dependency.name@,
            namespace: self.dependency.namespace@,
            entries_before: entries_view(self.dependency.gradle_entries_before@),
            entries_after: entries_view(self.dependency.gradle_entries_after@),
            lists: self.gradle_versions@.map_values(|l: GradleList| l@),
            changed: self.changed,
        }
    }
}

impl Versions {
    /// Whether `val` is among the transitive readings.
    pub fn transitive_contains(&self, val: &Version) -> (r: bool)
        ensures
            r == versions_view(self.transitive@).contains(val@),
    {
        let mut i: usize = 0;
        while i < self.transitive.len()
            invariant
                0 <= i <= self.transitive@.len(),
                forall|k: int| 0 <= k < i ==> self.transitive@[k]@ != val@,
            decreases self.transitive@.len() - i,
        {
            if self.transitive[i] == *val {
                assert(versions_view(self.transitive@)[i as int] == val@);
                return true;
            }
            i += 1;
        }
        proof {
            if versions_view(self.transitive@).contains(val@) {
                let k = choose|k: int|
                    0 <= k < versions_view(self.transitive@).len()
                        && versions_view(self.transitive@)[k] == val@;
                assert(self.transitive@[k]@ == val@);
            }
        }
        false
    }

    /// A copy of these versions.
    pub fn duplicate(&self) -> (r: Versions)
        ensures
            r@ == self@,
    {
        let mut t: Vec<Version> = Vec::new();
        let mut i: usize = 0;
        while i < self.transitive.len()
            invariant
                0 <= i <= self.transitive@.len(),
                t@.len() == i,
                forall|k: int| 0 <= k < i ==> t@[k]@ == self.transitive@[k]@,
            decreases self.transitive@.len() - i,
        {
            t.push(self.transitive[i].duplicate());
            i += 1;
        }
        assert(versions_view(t@) =~= versions_view(self.transitive@));
        Versions { transitive: t, pinned: self.pinned.duplicate() }
    }
}

impl GradleEntry {
    /// A copy of this entry.
    pub fn duplicate(&self) -> (r: GradleEntry)
        ensures
            r@ == self@,
    {
        let v = self.versions.duplicate();
        GradleEntry { gradle_config_name: self.gradle_config_name.clone(), versions: v }
    }
}

/// A copy of a list of entries.
pub fn duplicate_entries(entries: &Vec<GradleEntry>) -> (r: Vec<GradleEntry>)
    ensures
        entries_view(r@) == entries_view(entries@),
{
    let mut out: Vec<GradleEntry> = Vec::new();
    let mut i: usize = 0;
    while i < entries.len()
        invariant
            0 <= i <= entries@.len(),
            out@.len() == i,
            forall|k: int| 0 <= k < i ==> out@[k]@ == entries@[k]@,
        decreases entries@.len() - i,
    {
        out.push(entries[i].duplicate());
        i += 1;
    }
    assert(entries_view(out@) =~= entries_view(entries@));
    out
}

} // verus!
